use vstd::prelude::*;
use crate::doc::{lines_fit, lines_within, load_yaml, yaml_documents, Doc, MAX_LINE_LEN};
use crate::model::{parsing_text, project_spec, ParsingError, ParsingErrorV, Project, ProjectV};

verus! {

/// Everything that can stop an invocation.
#[derive(Clone, Debug)]
pub enum AppError {
    /// A required command-line argument, by name, was not given.
    MissingArgument(String),
    /// A file or directory operation failed: the path, and the system's reason.
    IOError(String, String),
    /// An outside tool or a stage reported a failure, in its own words.
    ExternalError(String),
    Parsing(ParsingError),
}

/// The position of the last `.` among the first `n` characters that comes
/// after every `/` among them.
pub open spec fn last_dot(s: Seq<char>, n: int) -> Option<int>
    decreases n,
{
    if n <= 0 {
        None
    } else if s[n - 1] == '.' {
        Some(n - 1)
    } else if s[n - 1] == '/' {
        None
    } else {
        last_dot(s, n - 1)
    }
}

/// The project path for a config file name: the name without the final
/// extension of its base name (everything from the last `.` after the last
/// `/`), or the whole name where the base name has no `.`.
pub open spec fn derived_path(config: Seq<char>) -> Seq<char> {
    match last_dot(config, config.len() as int) {
        Some(i) => config.take(i),
        None => config,
    }
}

/// The project path that a config file name gives (see `derived_path`).
pub fn project_path(config: &str) -> (r: String)
    ensures
        r@ == derived_path(config@),
{
    let n = config.unicode_len();
    let mut i: usize = n;
    while i > 0
        invariant
            n == config@.len(),
            i <= n,
            last_dot(config@, n as int) == last_dot(config@, i as int),
        ensures
            last_dot(config@, n as int) is None,
        decreases i,
    {
        let c = config.get_char(i - 1);
        if c == '.' {
            return String::from_str(config.substring_char(0, i - 1));
        }
        if c == '/' {
            break;
        }
        i = i - 1;
    }
    String::from_str(config)
}

/// What loading the config text `text`, read from the file `config`, gives:
/// the first document read as a project located at the derived path. A name
/// that leaves an empty path counts as no config name; a line longer than the
/// loader takes, or text that is no YAML, is a parse failure.
pub open spec fn load_spec(config: Seq<char>, text: Seq<char>) -> Result<ProjectV, AppErrorV> {
    if derived_path(config).len() == 0 {
        Err(AppErrorV::MissingArgument("config"@))
    } else if !lines_within(text, MAX_LINE_LEN as nat) {
        Err(AppErrorV::Parsing(ParsingErrorV::LineTooLong))
    } else {
        match yaml_documents(text) {
            None => Err(AppErrorV::Parsing(ParsingErrorV::Syntax)),
            Some(docs) => if docs.len() == 0 {
                Err(AppErrorV::Parsing(ParsingErrorV::NoDocument))
            } else {
                match project_spec(docs[0]) {
                    Err(e) => Err(AppErrorV::Parsing(e)),
                    Ok(p) => Ok(ProjectV { path: derived_path(config), ..p }),
                }
            },
        }
    }
}

pub enum AppErrorV {
    MissingArgument(Seq<char>),
    IOError(Seq<char>, Seq<char>),
    ExternalError(Seq<char>),
    Parsing(ParsingErrorV),
}

impl View for AppError {
    type V = AppErrorV;

    open spec fn view(&self) -> AppErrorV {
        match self {
            AppError::MissingArgument(n) => AppErrorV::MissingArgument(n@),
            AppError::IOError(p, c) => AppErrorV::IOError(p@, c@),
            AppError::ExternalError(m) => AppErrorV::ExternalError(m@),
            AppError::Parsing(e) => AppErrorV::Parsing(e@),
        }
    }
}

/// The line that reports an error to the user.
pub open spec fn message_spec(e: AppErrorV) -> Seq<char> {
    match e {
        AppErrorV::MissingArgument(n) => "Missing argument '"@ + n + "', use --help to show usage."@,
        AppErrorV::IOError(p, c) => c + " for '"@ + p + "'."@,
        AppErrorV::ExternalError(m) => m,
        AppErrorV::Parsing(pe) => "Cannot parse the configuration file: "@ + parsing_text(pe),
    }
}

impl AppError {
    /// The line that reports the error to the user (see `message_spec`).
    pub fn message(&self) -> (r: String)
        ensures
            r@ == message_spec(self@),
    {
        match self {
            AppError::MissingArgument(n) => {
                let mut r = String::from_str("Missing argument '");
                r.append(n.as_str());
                r.append("', use --help to show usage.");
                r
            },
            AppError::IOError(p, c) => {
                let mut r = c.clone();
                r.append(" for '");
                r.append(p.as_str());
                r.append("'.");
                r
            },
            AppError::ExternalError(m) => m.clone(),
            AppError::Parsing(pe) => {
                let mut r = String::from_str("Cannot parse the configuration file: ");
                let d = pe.describe();
                r.append(d.as_str());
                r
            },
        }
    }
}

/// Turns the text of the config file `config` into a located project.
pub fn load_project(config: &str, text: &str) -> (r: Result<Project, AppError>)
    ensures
        match r {
            Ok(p) => load_spec(config@, text@) == Ok::<ProjectV, AppErrorV>(p@),
            Err(e) => load_spec(config@, text@) == Err::<ProjectV, AppErrorV>(e@),
        },
        r is Ok ==> r->Ok_0@.path.len() > 0,
{
    let path = project_path(config);
    if path.as_str().unicode_len() == 0 {
        return Err(AppError::MissingArgument(String::from_str("config")));
    }
    if !lines_fit(text) {
        return Err(AppError::Parsing(ParsingError::LineTooLong));
    }
    let docs = match load_yaml(text) {
        Some(docs) => docs,
        None => return Err(AppError::Parsing(ParsingError::Syntax)),
    };
    if docs.len() == 0 {
        return Err(AppError::Parsing(ParsingError::NoDocument));
    }
    let doc: &Doc = &docs[0];
    match Project::from_yaml(doc) {
        Err(e) => Err(AppError::Parsing(e)),
        Ok(p) => Ok(p.set_path(path.as_str())),
    }
}

} // verus!
