use vstd::prelude::*;
use vstd::string::StrSliceExecFns;

use crate::error::GemcapsError;
use crate::glob::Glob;

verus! {

#[verifier::external_type_specification]
#[verifier::external_body]
pub struct ExRegex(regex::Regex);

pub assume_specification[ <regex::Regex as Clone>::clone ](re: &regex::Regex) -> (r: regex::Regex);

/// Whether the regular expression `pattern` matches somewhere in `text`:
/// a function of the pattern and the text alone.
pub uninterp spec fn regex_match(pattern: Seq<char>, text: Seq<char>) -> bool;

/// A path rule: a compiled regular expression together with its pattern.
#[derive(Debug)]
pub struct Rule {
    pattern: String,
    re: regex::Regex,
}

impl View for Rule {
    type V = Seq<char>;

    closed spec fn view(&self) -> Seq<char> {
        self.pattern@
    }
}

impl Rule {
    /// Relies on regex::Regex::new: it compiles the pattern, or fails on a
    /// pattern that is not a valid regular expression.
    #[verifier::external_body]
    pub fn new(pattern: &str) -> (r: Result<Rule, GemcapsError>)
        ensures
            r is Ok ==> r.unwrap()@ == pattern@,
    {
        match regex::Regex::new(pattern) {
            Ok(re) => Ok(Rule { pattern: pattern.to_owned(), re }),
            Err(e) => Err(GemcapsError::Message(format!("invalid rule: {}", e))),
        }
    }

    /// The pattern the rule was compiled from.
    pub fn pattern(&self) -> (r: &String)
        ensures
            r@ == self@,
    {
        &self.pattern
    }

    /// Relies on regex::Regex::is_match: whether the compiled pattern
    /// matches somewhere in the text.
    #[verifier::external_body]
    pub fn is_match(&self, text: &str) -> (r: bool)
        ensures
            r == regex_match(self@, text@),
    {
        self.re.is_match(text)
    }
}

impl Clone for Rule {
    fn clone(&self) -> (r: Self)
        ensures
            r@ == self@,
    {
        Rule { pattern: self.pattern.clone(), re: self.re.clone() }
    }
}

/// Certificate material named by a configuration, before the files are
/// read.
#[derive(Debug, Clone)]
pub struct ClosedCert {
    pub certfile: String,
    pub keyfile: String,
}

/// Certificate material after the files were read and decoded: the DER
/// certificate chain and the private key, as plain byte vectors.
#[derive(Debug, Clone)]
pub struct OpenedCert {
    pub certfile: String,
    pub keyfile: String,
    pub cert: Vec<Vec<u8>>,
    pub key: Vec<u8>,
}

/// Certificate material, by whether the files have been read yet.
#[derive(Debug, Clone)]
pub enum Cert {
    Closed(ClosedCert),
    Opened(OpenedCert),
}

impl ClosedCert {
    /// Name the certificate and key files.
    pub fn new(certfile: &str, keyfile: &str) -> (r: ClosedCert)
        ensures
            r.certfile@ == certfile@,
            r.keyfile@ == keyfile@,
    {
        ClosedCert { certfile: certfile.to_owned(), keyfile: keyfile.to_owned() }
    }

    /// Resolve both files against a base directory, where they are
    /// relative.
    pub fn relative(&mut self, base_dir: &str)
        ensures
            final(self).certfile@ == resolve_under(base_dir@, old(self).certfile@),
            final(self).keyfile@ == resolve_under(base_dir@, old(self).keyfile@),
    {
        if !starts_with_slash(self.certfile.as_str()) {
            self.certfile = crate::pathutil::join(base_dir, self.certfile.as_str());
        }
        if !starts_with_slash(self.keyfile.as_str()) {
            self.keyfile = crate::pathutil::join(base_dir, self.keyfile.as_str());
        }
    }
}

impl Cert {
    /// Name the certificate and key files, still unread.
    pub fn new(certfile: &str, keyfile: &str) -> (r: Cert)
        ensures
            r matches Cert::Closed(c) ==> c.certfile@ == certfile@ && c.keyfile@ == keyfile@,
            r is Closed,
    {
        Cert::Closed(ClosedCert::new(certfile, keyfile))
    }
}

/// A path left alone when absolute, and joined under the base directory
/// when relative.
pub open spec fn resolve_under(base: Seq<char>, path: Seq<char>) -> Seq<char> {
    if path.len() > 0 && path[0] == '/' {
        path
    } else {
        crate::pathutil::spec_join(base, path)
    }
}

fn starts_with_slash(s: &str) -> (r: bool)
    ensures
        r == (s@.len() > 0 && s@[0] == '/'),
{
    s.unicode_len() > 0 && s.get_char(0) == '/'
}

/// A redirect application: the SNI names it covers and the authority the
/// raw TLS bytes are spliced to.
#[derive(Debug, Clone)]
pub struct RedirectConf {
    pub domain_names: Vec<Glob>,
    pub redirect: String,
    pub error_log: Option<String>,
    pub access_log: Option<String>,
}

/// A proxy application: the request it forwards to, filtered by a rule.
#[derive(Debug, Clone)]
pub struct ProxyConf {
    pub domain_names: Vec<Glob>,
    pub proxy: String,
    pub rule: Option<Rule>,
    pub error_log: Option<String>,
    pub access_log: Option<String>,
}

/// A CGI application: where its scripts live, which extensions count as
/// scripts, and which names serve as directory indexes.
#[derive(Debug, Clone)]
pub struct CgiConf {
    pub domain_names: Vec<Glob>,
    pub cgi_root: String,
    pub extensions: Vec<String>,
    pub indexes: Vec<Glob>,
    pub rule: Option<Rule>,
    pub error_log: Option<String>,
    pub access_log: Option<String>,
}

/// A static file application: its root, whether bare directories are
/// listed, and which names serve as directory indexes.
#[derive(Debug, Clone)]
pub struct FileConf {
    pub domain_names: Vec<Glob>,
    pub file_root: String,
    pub send_folders: bool,
    pub indexes: Vec<Glob>,
    pub rule: Option<Rule>,
    pub error_log: Option<String>,
    pub access_log: Option<String>,
}

/// One application entry of a capsule.
#[derive(Debug, Clone)]
pub enum ConfItem {
    Redirect(RedirectConf),
    Proxy(ProxyConf),
    CGI(CgiConf),
    File(FileConf),
}

/// The kind of an application entry.
#[derive(Debug, Clone, Copy, PartialEq, Eq, Structural)]
pub enum ItemKind {
    Redirect,
    Proxy,
    Cgi,
    File,
}

/// What an application entry denotes, with one field per accessor; a field
/// a variant does not carry takes its default.
pub struct ConfItemView {
    pub kind: ItemKind,
    pub domains: Seq<Seq<Seq<char>>>,
    pub target: Seq<char>,
    pub rule: Option<Seq<char>>,
    pub error_log: Option<Seq<char>>,
    pub access_log: Option<Seq<char>>,
    pub send_folders: bool,
    pub extensions: Seq<Seq<char>>,
    pub indexes: Seq<Seq<Seq<char>>>,
}

pub open spec fn globs_view(v: Seq<Glob>) -> Seq<Seq<Seq<char>>> {
    v.map_values(|g: Glob| g@)
}

pub open spec fn strings_view(v: Seq<String>) -> Seq<Seq<char>> {
    v.map_values(|s: String| s@)
}

pub open spec fn opt_string_view(o: &Option<String>) -> Option<Seq<char>> {
    match o {
        Option::Some(s) => Option::Some(s@),
        Option::None => Option::None,
    }
}

pub open spec fn opt_rule_view(o: &Option<Rule>) -> Option<Seq<char>> {
    match o {
        Option::Some(r) => Option::Some(r@),
        Option::None => Option::None,
    }
}

impl View for ConfItem {
    type V = ConfItemView;

    open spec fn view(&self) -> ConfItemView {
        match self {
            ConfItem::Redirect(c) => ConfItemView {
                kind: ItemKind::Redirect,
                domains: globs_view(c.domain_names@),
                target: c.redirect@,
                rule: Option::None,
                error_log: opt_string_view(&c.error_log),
                access_log: opt_string_view(&c.access_log),
                send_folders: false,
                extensions: Seq::empty(),
                indexes: Seq::empty(),
            },
            ConfItem::Proxy(c) => ConfItemView {
                kind: ItemKind::Proxy,
                domains: globs_view(c.domain_names@),
                target: c.proxy@,
                rule: opt_rule_view(&c.rule),
                error_log: opt_string_view(&c.error_log),
                access_log: opt_string_view(&c.access_log),
                send_folders: false,
                extensions: Seq::empty(),
                indexes: Seq::empty(),
            },
            ConfItem::CGI(c) => ConfItemView {
                kind: ItemKind::Cgi,
                domains: globs_view(c.domain_names@),
                target: c.cgi_root@,
                rule: opt_rule_view(&c.rule),
                error_log: opt_string_view(&c.error_log),
                access_log: opt_string_view(&c.access_log),
                send_folders: false,
                extensions: strings_view(c.extensions@),
                indexes: globs_view(c.indexes@),
            },
            ConfItem::File(c) => ConfItemView {
                kind: ItemKind::File,
                domains: globs_view(c.domain_names@),
                target: c.file_root@,
                rule: opt_rule_view(&c.rule),
                error_log: opt_string_view(&c.error_log),
                access_log: opt_string_view(&c.access_log),
                send_folders: c.send_folders,
                extensions: Seq::empty(),
                indexes: globs_view(c.indexes@),
            },
        }
    }
}

impl ConfItem {
    /// The SNI or domain globs of the entry.
    pub fn domain_names(&self) -> (r: &Vec<Glob>)
        ensures
            globs_view(r@) == self@.domains,
    {
        match self {
            ConfItem::Redirect(c) => &c.domain_names,
            ConfItem::Proxy(c) => &c.domain_names,
            ConfItem::CGI(c) => &c.domain_names,
            ConfItem::File(c) => &c.domain_names,
        }
    }

    /// The path rule of the entry, where the variant can carry one.
    pub fn rule(&self) -> (r: Option<&Rule>)
        ensures
            r is Some <==> self@.rule is Some,
            r is Some ==> r.unwrap()@ == self@.rule.unwrap(),
    {
        match self {
            ConfItem::Redirect(_) => None,
            ConfItem::Proxy(c) => c.rule.as_ref(),
            ConfItem::CGI(c) => c.rule.as_ref(),
            ConfItem::File(c) => c.rule.as_ref(),
        }
    }

    /// The error log path of the entry.
    pub fn error_log(&self) -> (r: Option<&String>)
        ensures
            r is Some <==> self@.error_log is Some,
            r is Some ==> r.unwrap()@ == self@.error_log.unwrap(),
    {
        match self {
            ConfItem::Redirect(c) => c.error_log.as_ref(),
            ConfItem::Proxy(c) => c.error_log.as_ref(),
            ConfItem::CGI(c) => c.error_log.as_ref(),
            ConfItem::File(c) => c.error_log.as_ref(),
        }
    }

    /// The access log path of the entry.
    pub fn access_log(&self) -> (r: Option<&String>)
        ensures
            r is Some <==> self@.access_log is Some,
            r is Some ==> r.unwrap()@ == self@.access_log.unwrap(),
    {
        match self {
            ConfItem::Redirect(c) => c.access_log.as_ref(),
            ConfItem::Proxy(c) => c.access_log.as_ref(),
            ConfItem::CGI(c) => c.access_log.as_ref(),
            ConfItem::File(c) => c.access_log.as_ref(),
        }
    }

    /// Give the entry the capsule's domain globs, where it names none of
    /// its own.
    pub fn apply_default_domain_names(&mut self, domain_names: &Vec<Glob>)
        ensures
            final(self)@ == (ConfItemView {
                domains: if old(self)@.domains.len() == 0 {
                    globs_view(domain_names@)
                } else {
                    old(self)@.domains
                },
                ..old(self)@
            }),
    {
        let target = match self {
            ConfItem::Redirect(c) => &mut c.domain_names,
            ConfItem::Proxy(c) => &mut c.domain_names,
            ConfItem::CGI(c) => &mut c.domain_names,
            ConfItem::File(c) => &mut c.domain_names,
        };
        if target.len() == 0 {
            *target = clone_globs(domain_names);
        }
    }

    /// Give the entry the capsule's path rule, where it has none and the
    /// variant can carry one.
    pub fn apply_default_rule(&mut self, rule: &Rule)
        ensures
            final(self)@ == (ConfItemView {
                rule: if old(self)@.kind is Redirect {
                    Option::None
                } else if old(self)@.rule is None {
                    Option::Some(rule@)
                } else {
                    old(self)@.rule
                },
                ..old(self)@
            }),
    {
        let target = match self {
            ConfItem::Redirect(_) => {
                return ;
            },
            ConfItem::Proxy(c) => &mut c.rule,
            ConfItem::CGI(c) => &mut c.rule,
            ConfItem::File(c) => &mut c.rule,
        };
        if target.is_none() {
            *target = Some(rule.clone());
        }
    }

    /// Give the entry the capsule's error log, where it names none.
    pub fn apply_default_error_log(&mut self, error_log: &String)
        ensures
            final(self)@ == (ConfItemView {
                error_log: if old(self)@.error_log is None {
                    Option::Some(error_log@)
                } else {
                    old(self)@.error_log
                },
                ..old(self)@
            }),
    {
        let target = match self {
            ConfItem::Redirect(c) => &mut c.error_log,
            ConfItem::Proxy(c) => &mut c.error_log,
            ConfItem::CGI(c) => &mut c.error_log,
            ConfItem::File(c) => &mut c.error_log,
        };
        if target.is_none() {
            *target = Some(error_log.clone());
        }
    }

    /// Give the entry the capsule's access log, where it names none.
    pub fn apply_default_access_log(&mut self, access_log: &String)
        ensures
            final(self)@ == (ConfItemView {
                access_log: if old(self)@.access_log is None {
                    Option::Some(access_log@)
                } else {
                    old(self)@.access_log
                },
                ..old(self)@
            }),
    {
        let target = match self {
            ConfItem::Redirect(c) => &mut c.access_log,
            ConfItem::Proxy(c) => &mut c.access_log,
            ConfItem::CGI(c) => &mut c.access_log,
            ConfItem::File(c) => &mut c.access_log,
        };
        if target.is_none() {
            *target = Some(access_log.clone());
        }
    }
}

fn clone_globs(v: &Vec<Glob>) -> (r: Vec<Glob>)
    ensures
        globs_view(r@) == globs_view(v@),
{
    let mut r: Vec<Glob> = Vec::new();
    let mut i: usize = 0;
    proof {
        assert(globs_view(r@) =~~= globs_view(v@).take(0));
    }
    while i < v.len()
        invariant
            i <= v@.len(),
            globs_view(r@) == globs_view(v@).take(i as int),
        decreases v@.len() - i,
    {
        let g = v[i].clone();
        let ghost r0 = r@;
        r.push(g);
        proof {
            assert(g@ == v@[i as int]@);
            assert(globs_view(r0).len() == r0.len());
            assert(r0.len() == i as int);
            assert(r@ == r0.push(g));
            assert forall|k: int|
                0 <= k < r@.len() implies globs_view(r@)[k] == globs_view(v@).take(i + 1)[k] by {
                if k < i {
                    assert(globs_view(r0)[k] == globs_view(v@).take(i as int)[k]);
                    assert(globs_view(r@)[k] == r@[k]@);
                    assert(r@[k] == r0[k]);
                } else {
                    assert(r@[k] == g);
                }
            }
            assert(globs_view(r@) =~= globs_view(v@).take(i + 1));
        }
        i = i + 1;
    }
    proof {
        assert(globs_view(v@).take(v@.len() as int) =~~= globs_view(v@));
    }
    r
}

/// One capsule: its listener, optional certificate material, application
/// entries, capsule-wide error log, and name.
#[derive(Debug)]
pub struct CapsuleConf {
    pub listen: String,
    pub certificate: Option<Cert>,
    pub items: Vec<ConfItem>,
    pub error_log: Option<String>,
    pub name: String,
}

pub open spec fn items_view(items: Seq<ConfItem>) -> Seq<ConfItemView> {
    items.map_values(|it: ConfItem| it@)
}

/// The raw fields a configuration file binds, before the capsule-wide
/// defaults are applied.
pub struct ConfParts {
    pub listen: Option<String>,
    pub certificate: Option<String>,
    pub certificate_key: Option<String>,
    pub error_log: Option<String>,
    pub access_log: Option<String>,
    pub rule: Option<Rule>,
    pub domain_names: Option<Vec<Glob>>,
    pub application: Vec<ConfItem>,
}

impl CapsuleConf {
    /// Bind a capsule from the parts of its configuration file: the
    /// capsule-wide log, rule and domain defaults are pushed into each
    /// entry that lacks its own; `certificate` and `certificate_key` must
    /// be given together; a missing listen address defaults to the Gemini
    /// port on every interface.
    pub fn from_parts(parts: ConfParts) -> (r: Result<CapsuleConf, GemcapsError>)
        ensures
            r is Ok <==> (parts.certificate is Some <==> parts.certificate_key is Some),
            r is Ok ==> ({
                let c = r.unwrap();
                &&& c.listen@ == (match parts.listen {
                    Option::Some(l) => l@,
                    Option::None => "0.0.0.0:1965"@,
                })
                &&& (c.certificate is Some <==> parts.certificate is Some)
                &&& (parts.certificate is Some ==> (c.certificate matches Option::Some(
                    Cert::Closed(cc),
                ) && cc.certfile@ == parts.certificate.unwrap()@ && cc.keyfile@
                    == parts.certificate_key.unwrap()@))
                &&& opt_string_view(&c.error_log) == opt_string_view(&parts.error_log)
                &&& c.name@ == Seq::<char>::empty()
                &&& items_view(c.items@) == items_view(parts.application@).map_values(
                    |v: ConfItemView| apply_defaults_model(v, parts),
                )
            }),
    {
        let ghost gparts = parts;
        let ConfParts {
            listen,
            certificate,
            certificate_key,
            error_log,
            access_log,
            rule,
            domain_names,
            mut application,
        } = parts;
        let ghost app0 = application@;
        let mut out: Vec<ConfItem> = Vec::new();
        while application.len() > 0
            invariant
                out@.len() + application@.len() == app0.len(),
                forall|j: int|
                    0 <= j < application@.len() ==> #[trigger] application@[j]@ == app0[j
                        + out@.len()]@,
                forall|j: int|
                    0 <= j < out@.len() ==> #[trigger] out@[j]@ == apply_defaults_model(
                        app0[j]@,
                        gparts,
                    ),
                opt_string_view(&error_log) == opt_string_view(&gparts.error_log),
                opt_string_view(&access_log) == opt_string_view(&gparts.access_log),
                opt_rule_view(&rule) == opt_rule_view(&gparts.rule),
                (match domain_names {
                    Option::Some(d) => gparts.domain_names matches Option::Some(pd)
                        && globs_view(d@) == globs_view(pd@),
                    Option::None => gparts.domain_names is None,
                }),
            decreases application@.len(),
        {
            let mut item = application.remove(0);
            if let Some(e) = &error_log {
                item.apply_default_error_log(e);
            }
            if let Some(a) = &access_log {
                item.apply_default_access_log(a);
            }
            if let Some(ru) = &rule {
                item.apply_default_rule(ru);
            }
            if let Some(d) = &domain_names {
                item.apply_default_domain_names(d);
            }
            out.push(item);
        }
        let cert = match (certificate, certificate_key) {
            (Some(c), Some(k)) => Some(Cert::new(c.as_str(), k.as_str())),
            (None, None) => None,
            _ => {
                return Err(
                    GemcapsError::new("certificate and certificate_key are needed together"),
                );
            },
        };
        let listen = match listen {
            Some(l) => l,
            None => "0.0.0.0:1965".to_owned(),
        };
        let r = CapsuleConf {
            listen,
            certificate: cert,
            items: out,
            error_log,
            name: String::new(),
        };
        proof {
            assert(items_view(r.items@) =~= items_view(app0).map_values(
                |v: ConfItemView| apply_defaults_model(v, gparts),
            ));
        }
        Ok(r)
    }
}

impl CapsuleConf {
    /// Whether this capsule needs certificate material: it does as soon as
    /// any entry is not a redirect, since only a redirect works without
    /// local TLS termination.
    pub fn requires_certificate(&self) -> (r: bool)
        ensures
            r == exists|i: int|
                0 <= i < self.items@.len() && !(items_view(self.items@)[i].kind is Redirect),
    {
        let ghost iv = items_view(self.items@);
        let mut i: usize = 0;
        while i < self.items.len()
            invariant
                i <= self.items@.len(),
                iv == items_view(self.items@),
                forall|j: int| 0 <= j < i ==> iv[j].kind is Redirect,
            decreases self.items@.len() - i,
        {
            proof {
                assert(iv[i as int] == self.items@[i as int]@);
            }
            match &self.items[i] {
                ConfItem::Redirect(_) => {},
                _ => {
                    return true;
                },
            }
            i = i + 1;
        }
        false
    }
}

/// What the capsule-wide defaults do to one entry: each of the error log,
/// the access log, the rule (except on a redirect) and the domain globs is
/// filled in where the entry has none of its own and the capsule offers
/// one.
pub open spec fn apply_defaults_model(v: ConfItemView, parts: ConfParts) -> ConfItemView {
    ConfItemView {
        error_log: match &parts.error_log {
            Option::Some(e) => if v.error_log is None {
                Option::Some(e@)
            } else {
                v.error_log
            },
            Option::None => v.error_log,
        },
        access_log: match &parts.access_log {
            Option::Some(a) => if v.access_log is None {
                Option::Some(a@)
            } else {
                v.access_log
            },
            Option::None => v.access_log,
        },
        rule: match &parts.rule {
            Option::Some(ru) => if v.kind is Redirect {
                Option::None
            } else if v.rule is None {
                Option::Some(ru@)
            } else {
                v.rule
            },
            Option::None => v.rule,
        },
        domains: match &parts.domain_names {
            Option::Some(d) => if v.domains.len() == 0 {
                globs_view(d@)
            } else {
                v.domains
            },
            Option::None => v.domains,
        },
        ..v
    }
}

} // verus!
