//! The errors that the crate reports.
//!
//! An [`Error`] holds plain values only: where a call to the operating
//! system failed, `source` is the text of its answer. [`ErrorView`] is
//! what an error means, and [`Error::message`] how it reads.

use crate::text::{decimal_text, lossy_text, signed_text};
use crate::text::{decimal, signed_decimal, utf8_lossy};
use crate::values::opt_view;
use vstd::prelude::*;
use vstd::string::*;

verus! {

/// The result type of the crate.
pub type Result<T, E = Error> = std::result::Result<T, E>;

/// Everything that can go wrong.
#[derive(Debug)]
pub enum Error {
    /// A wrapped process exited with this code.
    Exit {
        /// The command that exited.
        command: String,
        /// The exit code.
        code: i32,
    },
    /// A wrapped process was terminated by a signal.
    Signal {
        /// The command that was terminated.
        command: String,
        /// The signal number.
        signal: i32,
    },
    /// A command could not be run.
    CouldNotRun {
        /// The command that was tried.
        command: String,
        /// What the operating system answered.
        source: String,
    },
    /// A required binary is not installed.
    MissingDependency {
        /// The missing binary.
        command: String,
        /// The package that ships it, where the caller knows.
        package: Option<String>,
    },
    /// A dependency did not report its version.
    CouldNotGetVersion {
        /// The command that was asked.
        command: String,
    },
    /// The current directory could not be determined.
    CouldNotGetCwd {
        /// What the operating system answered.
        source: String,
    },
    /// A required environment variable is not set.
    MissingEnvVar {
        /// The variable's name.
        name: String,
    },
    /// The path of the running binary could not be determined.
    CouldNotGetCurrentExe {
        /// What the operating system answered.
        source: String,
    },
    /// The running binary lives at a path that is not UTF-8. An AppArmor
    /// profile for it would have to name another file, so none is written.
    NonUtf8ExePath {
        /// The path, byte for byte.
        path: Vec<u8>,
    },
    /// Standard output could not be written.
    CouldNotWriteStdout {
        /// What the operating system answered.
        source: String,
    },
    /// The host path of a mount is not accessible.
    MissingMountHost {
        /// The host path.
        path: Vec<u8>,
        /// What the operating system answered.
        source: String,
    },
    /// A forwarded port is not usable.
    InvalidForwardPort {
        /// Which of the two ports: `host_port` or `sandbox_port`.
        field: String,
        /// The offending port.
        value: u16,
    },
    /// The name of an environment variable is not usable.
    InvalidEnvName {
        /// The offending name.
        name: String,
        /// Why it is not.
        reason: String,
    },
    /// A path of the configuration is neither absolute nor beneath `~/`.
    ConfigInvalidPath {
        /// The path as it was written, byte for byte.
        path: Vec<u8>,
        /// Why it was rejected.
        reason: String,
    },
    /// The default configuration could not be written.
    CouldNotWriteConfig {
        /// Where it should have gone.
        path: Vec<u8>,
        /// What the operating system answered.
        source: String,
    },
    /// The configuration file could not be read.
    CouldNotReadConfig {
        /// The file.
        path: Vec<u8>,
        /// What the operating system answered.
        source: String,
    },
    /// The configuration file is not what it should be.
    ConfigParse(Box<ConfigParseError>),
    /// A profile was asked for that the configuration does not define.
    UnknownProfile {
        /// The name as it was asked for.
        name: String,
        /// The configuration file.
        config_path: Vec<u8>,
    },
    /// A profile was reached twice during resolution.
    RepeatedProfile {
        /// The profile's name.
        name: String,
        /// The configuration file.
        config_path: Vec<u8>,
    },
    /// The secrets file could not be read.
    CouldNotReadSecrets {
        /// The file.
        path: Vec<u8>,
        /// What the operating system answered.
        source: String,
    },
    /// The secrets file could not be parsed.
    CouldNotParseSecrets {
        /// The file.
        path: Vec<u8>,
        /// What the parser answered.
        source: String,
    },
    /// The default secrets file could not be written.
    CouldNotWriteSecrets {
        /// Where it should have gone.
        path: Vec<u8>,
        /// What the operating system answered.
        source: String,
    },
    /// A template did not render.
    TemplateRender {
        /// What the template engine answered.
        message: String,
    },
    /// A proxy declaration has no host.
    ProxyEmptyHost,
    /// The port of a proxy declaration is not a port number.
    ProxyInvalidPort {
        /// The offending text.
        port: String,
    },
    /// The action of a proxy declaration is neither `allow` nor `deny`.
    ProxyInvalidAction {
        /// The offending text.
        action: String,
    },
    /// A proxy declaration is malformed.
    ProxyInvalidSyntax {
        /// The declaration.
        spec: String,
        /// Why it was rejected.
        reason: String,
    },
    /// The host has no certificate authorities to trust.
    NoRootCertificates,
    /// A file could not be read.
    CouldNotReadFile {
        /// The file.
        path: Vec<u8>,
        /// What the operating system answered.
        source: String,
    },
    /// Something else failed on the host.
    Other {
        /// What was being done.
        context: String,
        /// What was answered.
        source: String,
    },
}

/// What was wrong with the configuration file, and where.
#[derive(Debug)]
pub struct ConfigParseError {
    /// The configuration file.
    pub path: Vec<u8>,
    /// Its whole text, so that a report can show the place.
    pub source_text: String,
    /// The place: byte offset and length.
    pub span: Option<(usize, usize)>,
    /// What the parser answered.
    pub message: String,
}

/// What an [`Error`] means.
#[verifier::ext_equal]
pub enum ErrorView {
    Exit { command: Seq<char>, code: i32 },
    Signal { command: Seq<char>, signal: i32 },
    CouldNotRun { command: Seq<char>, source: Seq<char> },
    MissingDependency { command: Seq<char>, package: Option<Seq<char>> },
    CouldNotGetVersion { command: Seq<char> },
    CouldNotGetCwd { source: Seq<char> },
    MissingEnvVar { name: Seq<char> },
    CouldNotGetCurrentExe { source: Seq<char> },
    NonUtf8ExePath { path: Seq<u8> },
    CouldNotWriteStdout { source: Seq<char> },
    MissingMountHost { path: Seq<u8>, source: Seq<char> },
    InvalidForwardPort { field: Seq<char>, value: u16 },
    InvalidEnvName { name: Seq<char>, reason: Seq<char> },
    ConfigInvalidPath { path: Seq<u8>, reason: Seq<char> },
    CouldNotWriteConfig { path: Seq<u8>, source: Seq<char> },
    CouldNotReadConfig { path: Seq<u8>, source: Seq<char> },
    ConfigParse(ConfigParseErrorView),
    UnknownProfile { name: Seq<char>, config_path: Seq<u8> },
    RepeatedProfile { name: Seq<char>, config_path: Seq<u8> },
    CouldNotReadSecrets { path: Seq<u8>, source: Seq<char> },
    CouldNotParseSecrets { path: Seq<u8>, source: Seq<char> },
    CouldNotWriteSecrets { path: Seq<u8>, source: Seq<char> },
    TemplateRender { message: Seq<char> },
    ProxyEmptyHost,
    ProxyInvalidPort { port: Seq<char> },
    ProxyInvalidAction { action: Seq<char> },
    ProxyInvalidSyntax { spec: Seq<char>, reason: Seq<char> },
    NoRootCertificates,
    CouldNotReadFile { path: Seq<u8>, source: Seq<char> },
    Other { context: Seq<char>, source: Seq<char> },
}

/// What a [`ConfigParseError`] means.
#[verifier::ext_equal]
pub struct ConfigParseErrorView {
    pub path: Seq<u8>,
    pub source_text: Seq<char>,
    pub span: Option<(usize, usize)>,
    pub message: Seq<char>,
}

impl View for ConfigParseError {
    type V = ConfigParseErrorView;

    open spec fn view(&self) -> ConfigParseErrorView {
        ConfigParseErrorView {
            path: self.path@,
            source_text: self.source_text@,
            span: self.span,
            message: self.message@,
        }
    }
}

impl View for Error {
    type V = ErrorView;

    open spec fn view(&self) -> ErrorView {
        match self {
            Error::Exit { command, code } => ErrorView::Exit {
                command: command@,
                code: *code,
            },
            Error::Signal { command, signal } => ErrorView::Signal {
                command: command@,
                signal: *signal,
            },
            Error::CouldNotRun { command, source } => ErrorView::CouldNotRun {
                command: command@,
                source: source@,
            },
            Error::MissingDependency { command, package } => ErrorView::MissingDependency {
                command: command@,
                package: opt_view(*package),
            },
            Error::CouldNotGetVersion { command } => ErrorView::CouldNotGetVersion {
                command: command@,
            },
            Error::CouldNotGetCwd { source } => ErrorView::CouldNotGetCwd {
                source: source@,
            },
            Error::MissingEnvVar { name } => ErrorView::MissingEnvVar {
                name: name@,
            },
            Error::CouldNotGetCurrentExe { source } => ErrorView::CouldNotGetCurrentExe {
                source: source@,
            },
            Error::NonUtf8ExePath { path } => ErrorView::NonUtf8ExePath {
                path: path@,
            },
            Error::CouldNotWriteStdout { source } => ErrorView::CouldNotWriteStdout {
                source: source@,
            },
            Error::MissingMountHost { path, source } => ErrorView::MissingMountHost {
                path: path@,
                source: source@,
            },
            Error::InvalidForwardPort { field, value } => ErrorView::InvalidForwardPort {
                field: field@,
                value: *value,
            },
            Error::InvalidEnvName { name, reason } => ErrorView::InvalidEnvName {
                name: name@,
                reason: reason@,
            },
            Error::ConfigInvalidPath { path, reason } => ErrorView::ConfigInvalidPath {
                path: path@,
                reason: reason@,
            },
            Error::CouldNotWriteConfig { path, source } => ErrorView::CouldNotWriteConfig {
                path: path@,
                source: source@,
            },
            Error::CouldNotReadConfig { path, source } => ErrorView::CouldNotReadConfig {
                path: path@,
                source: source@,
            },
            Error::ConfigParse(e) => ErrorView::ConfigParse(e@),
            Error::UnknownProfile { name, config_path } => ErrorView::UnknownProfile {
                name: name@,
                config_path: config_path@,
            },
            Error::RepeatedProfile { name, config_path } => ErrorView::RepeatedProfile {
                name: name@,
                config_path: config_path@,
            },
            Error::CouldNotReadSecrets { path, source } => ErrorView::CouldNotReadSecrets {
                path: path@,
                source: source@,
            },
            Error::CouldNotParseSecrets { path, source } => ErrorView::CouldNotParseSecrets {
                path: path@,
                source: source@,
            },
            Error::CouldNotWriteSecrets { path, source } => ErrorView::CouldNotWriteSecrets {
                path: path@,
                source: source@,
            },
            Error::TemplateRender { message } => ErrorView::TemplateRender {
                message: message@,
            },
            Error::ProxyEmptyHost => ErrorView::ProxyEmptyHost,
            Error::ProxyInvalidPort { port } => ErrorView::ProxyInvalidPort {
                port: port@,
            },
            Error::ProxyInvalidAction { action } => ErrorView::ProxyInvalidAction {
                action: action@,
            },
            Error::ProxyInvalidSyntax { spec, reason } => ErrorView::ProxyInvalidSyntax {
                spec: spec@,
                reason: reason@,
            },
            Error::NoRootCertificates => ErrorView::NoRootCertificates,
            Error::CouldNotReadFile { path, source } => ErrorView::CouldNotReadFile {
                path: path@,
                source: source@,
            },
            Error::Other { context, source } => ErrorView::Other {
                context: context@,
                source: source@,
            },
        }
    }
}

/// What a result means, given what its success means.
pub open spec fn outcome<T: View>(r: Result<T>) -> Result<T::V, ErrorView> {
    match r {
        Ok(v) => Ok(v@),
        Err(e) => Err(e@),
    }
}

/// Are the two errors the same, but for what a template engine answered?
/// Of several things that are wrong with a template it names any one.
pub open spec fn same_error(a: ErrorView, b: ErrorView) -> bool {
    a == b || (a is TemplateRender && b is TemplateRender)
}

/// Are the two results the same, but for what a template engine answered?
pub open spec fn same_outcome<W>(a: Result<W, ErrorView>, b: Result<W, ErrorView>) -> bool {
    match (a, b) {
        (Ok(x), Ok(y)) => x == y,
        (Err(e), Err(f)) => same_error(e, f),
        _ => false,
    }
}

/// What a result without a value means.
pub open spec fn unit_outcome(r: Result<()>) -> Result<(), ErrorView> {
    match r {
        Ok(_) => Ok(()),
        Err(e) => Err(e@),
    }
}

impl ErrorView {
    /// How the error reads.
    pub open spec fn text(self) -> Seq<char> {
        match self {
            ErrorView::Exit { command, code } => "`"@ + command + "` exited with code "@ + signed_decimal(code as int),
            ErrorView::Signal { command, signal } => "`"@ + command + "` was terminated by signal "@ + signed_decimal(signal as int),
            ErrorView::CouldNotRun { command, .. } => "could not run `"@ + command + "`"@,
            ErrorView::MissingDependency { command, package } => match package {
                Some(package) => "`"@ + command + "` not found on $PATH (install the `"@ + package
                    + "` package)"@,
                None => "`"@ + command + "` not found on $PATH"@,
            },
            ErrorView::CouldNotGetVersion { command } => "`"@ + command + " --version` did not return a version string"@,
            ErrorView::CouldNotGetCwd { .. } => "could not determine current directory"@,
            ErrorView::MissingEnvVar { name } => "environment variable `"@ + name + "` is not set"@,
            ErrorView::CouldNotGetCurrentExe { .. } => "could not determine the path of the redoubtful binary"@,
            ErrorView::NonUtf8ExePath { path } => "redoubtful binary path is not valid UTF-8: `"@ + utf8_lossy(path) + "`; cannot generate AppArmor remediation"@,
            ErrorView::CouldNotWriteStdout { .. } => "could not write to stdout"@,
            ErrorView::MissingMountHost { path, .. } => "mount host path `"@ + utf8_lossy(path) + "` is not accessible"@,
            ErrorView::InvalidForwardPort { field, value } => "forward `"@ + field + "` value "@ + decimal(value as nat) + " is not a valid TCP port"@,
            ErrorView::InvalidEnvName { name, reason } => "env variable name `"@ + name + "` is invalid: "@ + reason,
            ErrorView::ConfigInvalidPath { path, reason } => "invalid path `"@ + utf8_lossy(path) + "` in config: "@ + reason,
            ErrorView::CouldNotWriteConfig { path, .. } => "could not write config file `"@ + utf8_lossy(path) + "`"@,
            ErrorView::CouldNotReadConfig { path, .. } => "could not read config file `"@ + utf8_lossy(path) + "`"@,
            ErrorView::ConfigParse(e) => "invalid TOML in `"@ + utf8_lossy(e.path) + "`: "@ + e.message,
            ErrorView::UnknownProfile { name, config_path } => "unknown profile `"@ + name + "` (not defined in `"@ + utf8_lossy(config_path) + "`)"@,
            ErrorView::RepeatedProfile { name, .. } => "profile `"@ + name + "` was already included earlier in the resolution"@,
            ErrorView::CouldNotReadSecrets { path, .. } => "could not read secrets file `"@ + utf8_lossy(path) + "`"@,
            ErrorView::CouldNotParseSecrets { path, .. } => "could not parse secrets file `"@ + utf8_lossy(path) + "`"@,
            ErrorView::CouldNotWriteSecrets { path, .. } => "could not write secrets file `"@ + utf8_lossy(path) + "`"@,
            ErrorView::TemplateRender { message } => "template error: "@ + message,
            ErrorView::ProxyEmptyHost => "proxy host is empty"@,
            ErrorView::ProxyInvalidPort { port } => "proxy port `"@ + port + "` is not a valid port number"@,
            ErrorView::ProxyInvalidAction { action } => "proxy action `"@ + action + "` is invalid (expected `allow` or `deny`)"@,
            ErrorView::ProxyInvalidSyntax { spec, reason } => "proxy `"@ + spec + "` is invalid: "@ + reason,
            ErrorView::NoRootCertificates => "no system root certificates found"@,
            ErrorView::CouldNotReadFile { path, .. } => "could not read file `"@ + utf8_lossy(path) + "`"@,
            ErrorView::Other { context, .. } => context,
        }
    }
}

/// The place that a half-open range of bytes stands for: an offset and a
/// length.
pub open spec fn place_of(range: Option<(usize, usize)>) -> Option<(usize, usize)> {
    match range {
        Some((start, end)) => Some(
            (
                start,
                if start <= end {
                    (end - start) as usize
                } else {
                    0
                },
            ),
        ),
        None => None,
    }
}

impl Error {
    /// How the error reads.
    pub fn message(&self) -> (r: String)
        ensures
            r@ == self@.text(),
    {
        match self {
            Error::Exit { command, code } => {
                let mut s = "`".to_owned();
                s.append(command.as_str());
                s.append("` exited with code ");
                let number = signed_text(*code);
                s.append(number.as_str());
                s
            },
            Error::Signal { command, signal } => {
                let mut s = "`".to_owned();
                s.append(command.as_str());
                s.append("` was terminated by signal ");
                let number = signed_text(*signal);
                s.append(number.as_str());
                s
            },
            Error::CouldNotRun { command, .. } => {
                let mut s = "could not run `".to_owned();
                s.append(command.as_str());
                s.append("`");
                s
            },
            Error::MissingDependency { command, package } => match package {
                Some(package) => {
                    let mut s = "`".to_owned();
                    s.append(command.as_str());
                    s.append("` not found on $PATH (install the `");
                    s.append(package.as_str());
                    s.append("` package)");
                    s
                },
                None => {
                    let mut s = "`".to_owned();
                    s.append(command.as_str());
                    s.append("` not found on $PATH");
                    s
                },
            },
            Error::CouldNotGetVersion { command } => {
                let mut s = "`".to_owned();
                s.append(command.as_str());
                s.append(" --version` did not return a version string");
                s
            },
            Error::CouldNotGetCwd { .. } => {
                "could not determine current directory".to_owned()
            },
            Error::MissingEnvVar { name } => {
                let mut s = "environment variable `".to_owned();
                s.append(name.as_str());
                s.append("` is not set");
                s
            },
            Error::CouldNotGetCurrentExe { .. } => {
                "could not determine the path of the redoubtful binary".to_owned()
            },
            Error::NonUtf8ExePath { path } => {
                let mut s = "redoubtful binary path is not valid UTF-8: `".to_owned();
                let shown = lossy_text(path.as_slice());
                s.append(shown.as_str());
                s.append("`; cannot generate AppArmor remediation");
                s
            },
            Error::CouldNotWriteStdout { .. } => {
                "could not write to stdout".to_owned()
            },
            Error::MissingMountHost { path, .. } => {
                let mut s = "mount host path `".to_owned();
                let shown = lossy_text(path.as_slice());
                s.append(shown.as_str());
                s.append("` is not accessible");
                s
            },
            Error::InvalidForwardPort { field, value } => {
                let mut s = "forward `".to_owned();
                s.append(field.as_str());
                s.append("` value ");
                let number = decimal_text(*value as u64);
                s.append(number.as_str());
                s.append(" is not a valid TCP port");
                s
            },
            Error::InvalidEnvName { name, reason } => {
                let mut s = "env variable name `".to_owned();
                s.append(name.as_str());
                s.append("` is invalid: ");
                s.append(reason.as_str());
                s
            },
            Error::ConfigInvalidPath { path, reason } => {
                let mut s = "invalid path `".to_owned();
                let shown = lossy_text(path.as_slice());
                s.append(shown.as_str());
                s.append("` in config: ");
                s.append(reason.as_str());
                s
            },
            Error::CouldNotWriteConfig { path, .. } => {
                let mut s = "could not write config file `".to_owned();
                let shown = lossy_text(path.as_slice());
                s.append(shown.as_str());
                s.append("`");
                s
            },
            Error::CouldNotReadConfig { path, .. } => {
                let mut s = "could not read config file `".to_owned();
                let shown = lossy_text(path.as_slice());
                s.append(shown.as_str());
                s.append("`");
                s
            },
            Error::ConfigParse(e) => {
                let mut s = "invalid TOML in `".to_owned();
                let shown = lossy_text(e.path.as_slice());
                s.append(shown.as_str());
                s.append("`: ");
                s.append(e.message.as_str());
                s
            },
            Error::UnknownProfile { name, config_path } => {
                let mut s = "unknown profile `".to_owned();
                s.append(name.as_str());
                s.append("` (not defined in `");
                let shown = lossy_text(config_path.as_slice());
                s.append(shown.as_str());
                s.append("`)");
                s
            },
            Error::RepeatedProfile { name, .. } => {
                let mut s = "profile `".to_owned();
                s.append(name.as_str());
                s.append("` was already included earlier in the resolution");
                s
            },
            Error::CouldNotReadSecrets { path, .. } => {
                let mut s = "could not read secrets file `".to_owned();
                let shown = lossy_text(path.as_slice());
                s.append(shown.as_str());
                s.append("`");
                s
            },
            Error::CouldNotParseSecrets { path, .. } => {
                let mut s = "could not parse secrets file `".to_owned();
                let shown = lossy_text(path.as_slice());
                s.append(shown.as_str());
                s.append("`");
                s
            },
            Error::CouldNotWriteSecrets { path, .. } => {
                let mut s = "could not write secrets file `".to_owned();
                let shown = lossy_text(path.as_slice());
                s.append(shown.as_str());
                s.append("`");
                s
            },
            Error::TemplateRender { message } => {
                let mut s = "template error: ".to_owned();
                s.append(message.as_str());
                s
            },
            Error::ProxyEmptyHost => {
                "proxy host is empty".to_owned()
            },
            Error::ProxyInvalidPort { port } => {
                let mut s = "proxy port `".to_owned();
                s.append(port.as_str());
                s.append("` is not a valid port number");
                s
            },
            Error::ProxyInvalidAction { action } => {
                let mut s = "proxy action `".to_owned();
                s.append(action.as_str());
                s.append("` is invalid (expected `allow` or `deny`)");
                s
            },
            Error::ProxyInvalidSyntax { spec, reason } => {
                let mut s = "proxy `".to_owned();
                s.append(spec.as_str());
                s.append("` is invalid: ");
                s.append(reason.as_str());
                s
            },
            Error::NoRootCertificates => {
                "no system root certificates found".to_owned()
            },
            Error::CouldNotReadFile { path, .. } => {
                let mut s = "could not read file `".to_owned();
                let shown = lossy_text(path.as_slice());
                s.append(shown.as_str());
                s.append("`");
                s
            },
            Error::Other { context, .. } => {
                context.as_str().to_owned()
            },
        }
    }

    /// An [`Error::Exit`].
    pub fn exit(command: &str, code: i32) -> (r: Error)
        ensures
            r@ == (ErrorView::Exit { command: command@, code }),
    {
        Error::Exit { command: command.to_owned(), code }
    }

    /// An [`Error::Signal`].
    pub fn signal(command: &str, signal: i32) -> (r: Error)
        ensures
            r@ == (ErrorView::Signal { command: command@, signal }),
    {
        Error::Signal { command: command.to_owned(), signal }
    }

    /// An [`Error::CouldNotRun`].
    pub fn could_not_run(command: &str, source: &str) -> (r: Error)
        ensures
            r@ == (ErrorView::CouldNotRun { command: command@, source: source@ }),
    {
        Error::CouldNotRun { command: command.to_owned(), source: source.to_owned() }
    }

    /// An [`Error::CouldNotGetVersion`].
    pub fn could_not_get_version(command: &str) -> (r: Error)
        ensures
            r@ == (ErrorView::CouldNotGetVersion { command: command@ }),
    {
        Error::CouldNotGetVersion { command: command.to_owned() }
    }

    /// An [`Error::CouldNotGetCwd`].
    pub fn could_not_get_cwd(source: &str) -> (r: Error)
        ensures
            r@ == (ErrorView::CouldNotGetCwd { source: source@ }),
    {
        Error::CouldNotGetCwd { source: source.to_owned() }
    }

    /// An [`Error::MissingEnvVar`].
    pub fn missing_env_var(name: &str) -> (r: Error)
        ensures
            r@ == (ErrorView::MissingEnvVar { name: name@ }),
    {
        Error::MissingEnvVar { name: name.to_owned() }
    }

    /// An [`Error::CouldNotGetCurrentExe`].
    pub fn could_not_get_current_exe(source: &str) -> (r: Error)
        ensures
            r@ == (ErrorView::CouldNotGetCurrentExe { source: source@ }),
    {
        Error::CouldNotGetCurrentExe { source: source.to_owned() }
    }

    /// An [`Error::NonUtf8ExePath`].
    pub fn non_utf8_exe_path(path: Vec<u8>) -> (r: Error)
        ensures
            r@ == (ErrorView::NonUtf8ExePath { path: path@ }),
    {
        Error::NonUtf8ExePath { path }
    }

    /// An [`Error::CouldNotWriteStdout`].
    pub fn could_not_write_stdout(source: &str) -> (r: Error)
        ensures
            r@ == (ErrorView::CouldNotWriteStdout { source: source@ }),
    {
        Error::CouldNotWriteStdout { source: source.to_owned() }
    }

    /// An [`Error::MissingMountHost`].
    pub fn missing_mount_host(path: Vec<u8>, source: &str) -> (r: Error)
        ensures
            r@ == (ErrorView::MissingMountHost { path: path@, source: source@ }),
    {
        Error::MissingMountHost { path, source: source.to_owned() }
    }

    /// An [`Error::InvalidForwardPort`].
    pub fn invalid_forward_port(field: &str, value: u16) -> (r: Error)
        ensures
            r@ == (ErrorView::InvalidForwardPort { field: field@, value }),
    {
        Error::InvalidForwardPort { field: field.to_owned(), value }
    }

    /// An [`Error::InvalidEnvName`].
    pub fn invalid_env_name(name: &str, reason: &str) -> (r: Error)
        ensures
            r@ == (ErrorView::InvalidEnvName { name: name@, reason: reason@ }),
    {
        Error::InvalidEnvName { name: name.to_owned(), reason: reason.to_owned() }
    }

    /// An [`Error::ConfigInvalidPath`].
    pub fn config_invalid_path(path: Vec<u8>, reason: &str) -> (r: Error)
        ensures
            r@ == (ErrorView::ConfigInvalidPath { path: path@, reason: reason@ }),
    {
        Error::ConfigInvalidPath { path, reason: reason.to_owned() }
    }

    /// An [`Error::CouldNotWriteConfig`].
    pub fn could_not_write_config(path: Vec<u8>, source: &str) -> (r: Error)
        ensures
            r@ == (ErrorView::CouldNotWriteConfig { path: path@, source: source@ }),
    {
        Error::CouldNotWriteConfig { path, source: source.to_owned() }
    }

    /// An [`Error::CouldNotReadConfig`].
    pub fn could_not_read_config(path: Vec<u8>, source: &str) -> (r: Error)
        ensures
            r@ == (ErrorView::CouldNotReadConfig { path: path@, source: source@ }),
    {
        Error::CouldNotReadConfig { path, source: source.to_owned() }
    }

    /// An [`Error::UnknownProfile`].
    pub fn unknown_profile(name: &str, config_path: Vec<u8>) -> (r: Error)
        ensures
            r@ == (ErrorView::UnknownProfile { name: name@, config_path: config_path@ }),
    {
        Error::UnknownProfile { name: name.to_owned(), config_path }
    }

    /// An [`Error::RepeatedProfile`].
    pub fn repeated_profile(name: &str, config_path: Vec<u8>) -> (r: Error)
        ensures
            r@ == (ErrorView::RepeatedProfile { name: name@, config_path: config_path@ }),
    {
        Error::RepeatedProfile { name: name.to_owned(), config_path }
    }

    /// An [`Error::CouldNotReadSecrets`].
    pub fn could_not_read_secrets(path: Vec<u8>, source: &str) -> (r: Error)
        ensures
            r@ == (ErrorView::CouldNotReadSecrets { path: path@, source: source@ }),
    {
        Error::CouldNotReadSecrets { path, source: source.to_owned() }
    }

    /// An [`Error::CouldNotParseSecrets`].
    pub fn could_not_parse_secrets(path: Vec<u8>, source: &str) -> (r: Error)
        ensures
            r@ == (ErrorView::CouldNotParseSecrets { path: path@, source: source@ }),
    {
        Error::CouldNotParseSecrets { path, source: source.to_owned() }
    }

    /// An [`Error::CouldNotWriteSecrets`].
    pub fn could_not_write_secrets(path: Vec<u8>, source: &str) -> (r: Error)
        ensures
            r@ == (ErrorView::CouldNotWriteSecrets { path: path@, source: source@ }),
    {
        Error::CouldNotWriteSecrets { path, source: source.to_owned() }
    }

    /// An [`Error::TemplateRender`].
    pub fn template_render(message: &str) -> (r: Error)
        ensures
            r@ == (ErrorView::TemplateRender { message: message@ }),
    {
        Error::TemplateRender { message: message.to_owned() }
    }

    /// An [`Error::ProxyInvalidPort`].
    pub fn proxy_invalid_port(port: &str) -> (r: Error)
        ensures
            r@ == (ErrorView::ProxyInvalidPort { port: port@ }),
    {
        Error::ProxyInvalidPort { port: port.to_owned() }
    }

    /// An [`Error::ProxyInvalidAction`].
    pub fn proxy_invalid_action(action: &str) -> (r: Error)
        ensures
            r@ == (ErrorView::ProxyInvalidAction { action: action@ }),
    {
        Error::ProxyInvalidAction { action: action.to_owned() }
    }

    /// An [`Error::ProxyInvalidSyntax`].
    pub fn proxy_invalid_syntax(spec: &str, reason: &str) -> (r: Error)
        ensures
            r@ == (ErrorView::ProxyInvalidSyntax { spec: spec@, reason: reason@ }),
    {
        Error::ProxyInvalidSyntax { spec: spec.to_owned(), reason: reason.to_owned() }
    }

    /// An [`Error::NoRootCertificates`].
    pub fn no_root_certificates() -> (r: Error)
        ensures
            r@ == ErrorView::NoRootCertificates,
    {
        Error::NoRootCertificates
    }

    /// An [`Error::CouldNotReadFile`].
    pub fn could_not_read_file(path: Vec<u8>, source: &str) -> (r: Error)
        ensures
            r@ == (ErrorView::CouldNotReadFile { path: path@, source: source@ }),
    {
        Error::CouldNotReadFile { path, source: source.to_owned() }
    }

    /// An [`Error::Other`].
    pub fn other(context: &str, source: &str) -> (r: Error)
        ensures
            r@ == (ErrorView::Other { context: context@, source: source@ }),
    {
        Error::Other { context: context.to_owned(), source: source.to_owned() }
    }

    /// An [`Error::MissingDependency`] of a binary whose package the caller
    /// does not name.
    pub fn missing_dependency(command: &str) -> (r: Error)
        ensures
            r@ == (ErrorView::MissingDependency { command: command@, package: None }),
    {
        Error::MissingDependency { command: command.to_owned(), package: None }
    }

    /// An [`Error::MissingDependency`] that names the package to install.
    pub fn missing_package(command: &str, package: &str) -> (r: Error)
        ensures
            r@ == (ErrorView::MissingDependency { command: command@, package: Some(package@) }),
    {
        Error::MissingDependency { command: command.to_owned(), package: Some(package.to_owned()) }
    }

    /// An [`Error::ConfigParse`]. `range` is the half-open byte range that
    /// the parser points at; it is kept as an offset and a length, and a
    /// range that ends before it starts has length 0.
    pub fn config_parse(
        path: Vec<u8>,
        source_text: String,
        range: Option<(usize, usize)>,
        message: &str,
    ) -> (r: Error)
        ensures
            r@ == ErrorView::ConfigParse(
                (ConfigParseErrorView {
                    path: path@,
                    source_text: source_text@,
                    span: place_of(range),
                    message: message@,
                }),
            ),
    {
        let span = match range {
            Some((start, end)) => Some((start, if start <= end { end - start } else { 0 })),
            None => None,
        };
        Error::ConfigParse(
            Box::new(ConfigParseError { path, source_text, span, message: message.to_owned() }),
        )
    }
}

/// A place starts where the range starts and ends where it ends; a range
/// that ends before it starts is a place without extent, and without a
/// range there is none.
pub proof fn law_places_are_kept(start: usize, end: usize)
    ensures
        start <= end ==> (place_of(Some((start, end))) matches Some((offset, length)) && offset
            == start && offset + length == end),
        start > end ==> place_of(Some((start, end))) == Some((start, 0usize)),
        place_of(None) is None,
{
}

} // verus!
