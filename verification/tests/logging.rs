use gemcaps::config::ClosedCert;
use gemcaps::error::GemcapsError;
use gemcaps::log::{Logger, LoggerBuilder};
use gemcaps::tls::buffer::Buffer;

#[test]
fn test_logger_format() {
    let logger = Logger::new("capsule");
    assert_eq!(logger.format("ERROR", "it broke"), "ERROR [capsule] it broke");
    let grouped = logger.as_option("192.0.2.7:40000");
    assert_eq!(
        grouped.format("ACCES", "20 (success)"),
        "ACCES [capsule|192.0.2.7:40000] 20 (success)"
    );
}

#[test]
fn test_logger_builder() {
    let b = LoggerBuilder::new("a")
        .name("b")
        .group("g")
        .access("logs/a.log")
        .error("logs/e.log");
    assert_eq!(b.name, "b");
    assert_eq!(b.group.as_deref(), Some("g"));
    assert_eq!(b.access_file.as_deref(), Some("logs/a.log"));
    assert_eq!(b.error_file.as_deref(), Some("logs/e.log"));
    let b = b.set_access(None).set_error(Some("logs/other.log".to_string()));
    assert_eq!(b.access_file, None);
    assert_eq!(b.error_file.as_deref(), Some("logs/other.log"));
}

#[test]
fn test_buffer_accumulates_and_reads() {
    let mut buf = Buffer::with_capacity(16);
    assert_eq!(buf.ready(), 0);
    buf.push_bytes(b"hello ");
    buf.push_bytes(b"world");
    assert_eq!(buf.ready(), 11);
    assert_eq!(buf.read_up_to(5), b"hello".to_vec());
    assert_eq!(buf.ready(), 6);
    assert_eq!(buf.read_up_to(100), b" world".to_vec());
    assert_eq!(buf.ready(), 0);
    assert_eq!(buf.read_up_to(4), Vec::<u8>::new());
    // the whole accumulated prefix stays available for a splice
    assert_eq!(buf.data(), &b"hello world".to_vec());
}

#[test]
fn test_closed_cert_relative() {
    let mut cert = ClosedCert::new("certs/x.crt", "/abs/x.key");
    cert.relative("/etc/gemcaps");
    assert_eq!(cert.certfile, "/etc/gemcaps/certs/x.crt");
    assert_eq!(cert.keyfile, "/abs/x.key");
}

#[test]
fn test_error_message() {
    let e = GemcapsError::new("something happened");
    assert_eq!(e.message(), "something happened");
}
