use vstd::prelude::*;
use vstd::string::StringExecFns;

verus! {

/// How one log line is laid out: the level tag, the logger's name with its
/// optional group, and the message.
pub open spec fn spec_format_line(
    action: Seq<char>,
    name: Seq<char>,
    group: Option<Seq<char>>,
    message: Seq<char>,
) -> Seq<char> {
    match group {
        Option::Some(g) => action + " ["@ + name + seq!['|'] + g + "] "@ + message,
        Option::None => action + " ["@ + name + "] "@ + message,
    }
}

/// What the configuration names a logger before its files are opened: its
/// name, an optional group label, and the two optional output paths.
#[derive(Debug, Clone)]
pub struct LoggerBuilder {
    pub name: String,
    pub group: Option<String>,
    pub access_file: Option<String>,
    pub error_file: Option<String>,
}

impl LoggerBuilder {
    /// Start a builder with only a name.
    pub fn new(name: &str) -> (r: LoggerBuilder)
        ensures
            r.name@ == name@,
            r.group is None,
            r.access_file is None,
            r.error_file is None,
    {
        LoggerBuilder { name: name.to_owned(), group: None, access_file: None, error_file: None }
    }

    /// Replace the name.
    pub fn name(self, name: &str) -> (r: LoggerBuilder)
        ensures
            r.name@ == name@,
            r.group == self.group,
            r.access_file == self.access_file,
            r.error_file == self.error_file,
    {
        LoggerBuilder { name: name.to_owned(), ..self }
    }

    /// Set the group label.
    pub fn group(self, group: &str) -> (r: LoggerBuilder)
        ensures
            r.name == self.name,
            r.group matches Option::Some(g) && g@ == group@,
            r.access_file == self.access_file,
            r.error_file == self.error_file,
    {
        LoggerBuilder { group: Some(group.to_owned()), ..self }
    }

    /// Set the access log path.
    pub fn access(self, file: &str) -> (r: LoggerBuilder)
        ensures
            r.name == self.name,
            r.group == self.group,
            r.access_file matches Option::Some(f) && f@ == file@,
            r.error_file == self.error_file,
    {
        LoggerBuilder { access_file: Some(file.to_owned()), ..self }
    }

    /// Set or clear the access log path.
    pub fn set_access(self, file: Option<String>) -> (r: LoggerBuilder)
        ensures
            r.name == self.name,
            r.group == self.group,
            r.access_file == file,
            r.error_file == self.error_file,
    {
        LoggerBuilder { access_file: file, ..self }
    }

    /// Set the error log path.
    pub fn error(self, file: &str) -> (r: LoggerBuilder)
        ensures
            r.name == self.name,
            r.group == self.group,
            r.access_file == self.access_file,
            r.error_file matches Option::Some(f) && f@ == file@,
    {
        LoggerBuilder { error_file: Some(file.to_owned()), ..self }
    }

    /// Set or clear the error log path.
    pub fn set_error(self, file: Option<String>) -> (r: LoggerBuilder)
        ensures
            r.name == self.name,
            r.group == self.group,
            r.access_file == self.access_file,
            r.error_file == file,
    {
        LoggerBuilder { error_file: file, ..self }
    }
}

/// The pure face of a logger: its name and optional group label. The sinks
/// the lines go to belong to the host program.
#[derive(Debug, Clone)]
pub struct Logger {
    pub name: String,
    pub group: Option<String>,
}

impl Logger {
    /// A logger with the given name and no group.
    pub fn new(name: &str) -> (r: Logger)
        ensures
            r.name@ == name@,
            r.group is None,
    {
        Logger { name: name.to_owned(), group: None }
    }

    /// Give the logger a group label.
    pub fn option(&mut self, group: &str)
        ensures
            final(self).name == old(self).name,
            final(self).group matches Option::Some(g) && g@ == group@,
    {
        self.group = Some(group.to_owned());
    }

    /// A copy of the logger carrying a group label.
    pub fn as_option(&self, group: &str) -> (r: Logger)
        ensures
            r.name@ == self.name@,
            r.group matches Option::Some(g) && g@ == group@,
    {
        Logger { name: self.name.clone(), group: Some(group.to_owned()) }
    }

    /// Format one log line.
    pub fn format(&self, action: &str, message: &str) -> (r: String)
        ensures
            r@ == spec_format_line(
                action@,
                self.name@,
                match &self.group {
                    Option::Some(g) => Option::Some(g@),
                    Option::None => Option::None,
                },
                message@,
            ),
    {
        let mut r = action.to_owned();
        r.append(" [");
        r.append(self.name.as_str());
        match &self.group {
            Some(g) => {
                r.append("|");
                r.append(g.as_str());
                proof {
                    reveal_strlit("|");
                    assert("|"@ =~= seq!['|']);
                }
            },
            None => {},
        }
        r.append("] ");
        r.append(message);
        proof {
            assert(r@ =~= spec_format_line(
                action@,
                self.name@,
                match &self.group {
                    Option::Some(g) => Option::Some(g@),
                    Option::None => Option::None,
                },
                message@,
            ));
        }
        r
    }
}

} // verus!
