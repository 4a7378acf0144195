use gemcaps::glob::Glob;

#[test]
fn test_glob_new() {
    let glob = Glob::new("Hello");
    assert_eq!(glob.matchers(), &vec!["Hello".to_string()]);

    let glob = Glob::new("*Hello");
    assert_eq!(glob.matchers(), &vec!["".to_string(), "Hello".to_string()]);

    let glob = Glob::new("Hello*");
    assert_eq!(glob.matchers(), &vec!["Hello".to_string(), "".to_string()]);
}

#[test]
fn test_matches() {
    let glob = Glob::new("Hello");
    assert_eq!(glob.matches("Hello"), true, "'Hello' != 'Hello'");
    assert_eq!(glob.matches("hello"), false, "'hello' == 'Hello'");
    assert_eq!(glob.matches("FooHello"), false, "'FooHello' == 'Hello'");
    assert_eq!(glob.matches("HelloFoo"), false, "'HelloFoo' == 'Hello'");
    assert_eq!(glob.matches("FooHelloBar"), false, "'FooHelloBar' == 'Hello'");
    assert_eq!(glob.matches(""), false, "'' == 'Hello'");

    let glob = Glob::new("*Hello");
    assert_eq!(glob.matches("Hello"), true, "'Hello' != '*Hello'");
    assert_eq!(glob.matches("FooHello"), true, "'FooHello' != '*Hello'");
    assert_eq!(glob.matches("HelloFoo"), false, "'HelloFoo' == '*Hello'");
    assert_eq!(glob.matches("FooHelloBar"), false, "'FooHelloBar' == '*Hello'");
    assert_eq!(glob.matches(""), false, "'' == '*Hello'");

    let glob = Glob::new("Hello*");
    assert_eq!(glob.matches("Hello"), true, "'Hello' != 'Hello*'");
    assert_eq!(glob.matches("FooHello"), false, "'FooHello' == 'Hello*'");
    assert_eq!(glob.matches("HelloFoo"), true, "'HelloFoo' != 'Hello*'");
    assert_eq!(glob.matches("FooHelloBar"), false, "'FooHelloBar' == 'Hello*'");
    assert_eq!(glob.matches(""), false, "'' == 'Hello*'");

    let glob = Glob::new("*Hello*");
    assert_eq!(glob.matches("Hello"), true, "'Hello' != '*Hello*'");
    assert_eq!(glob.matches("FooHello"), true, "'FooHello' != '*Hello*'");
    assert_eq!(glob.matches("HelloFoo"), true, "'HelloFoo' != '*Hello*'");
    assert_eq!(glob.matches("FooHelloBar"), true, "'FooHelloBar' != '*Hello*'");
    assert_eq!(glob.matches(""), false, "'' == '*Hello*'");
}

#[test]
fn test_empty_glob() {
    let glob = Glob::new("*");
    assert_eq!(glob.matches("Hello"), true, "'Hello' != '*'");
    assert_eq!(glob.matches(""), true, "'' != '*'");

    let glob = Glob::new("");
    assert_eq!(glob.matches("Hello"), false, "'Hello' == ''");
    assert_eq!(glob.matches(""), true, "'' != ''");
}

#[test]
fn test_glob_in_order_segments() {
    let glob = Glob::new("a*b*c");
    assert_eq!(glob.matches("abc"), true);
    assert_eq!(glob.matches("a-x-b-y-c"), true);
    assert_eq!(glob.matches("acb"), false);
    assert_eq!(glob.matches("ab"), false);
}
