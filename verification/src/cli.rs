//! Command-line configuration: resolving the default AUR directory from an
//! environment snapshot, building clone links from package names, and
//! interpreting the interactive confirmation answer.

use vstd::pervasive::unreached;
use vstd::prelude::*;

verus! {

/// Configuration handed in by the caller, holding the AUR directory to use.
pub struct Config {
    aur_dir: String,
}

impl View for Config {
    type V = Seq<char>;

    closed spec fn view(&self) -> Seq<char> {
        self.aur_dir@
    }
}

impl Config {
    /// A configuration naming the given AUR directory.
    pub fn new(aur_dir: String) -> (r: Config)
        ensures
            r@ == aur_dir@,
    {
        Config { aur_dir }
    }
}

/// The pieces of the process environment that the default-directory
/// resolution reads: the home directory, and the current working directory
/// as a fallback.  Either may be missing.
pub struct EnvSnapshot {
    pub home: Option<String>,
    pub current_dir: Option<String>,
}

/// The default AUR directory an environment resolves to: `AUR` under the
/// home directory, or under the current directory when no home is known.
/// Meaningless when the environment offers neither.
pub open spec fn fallback_dir_of(env: EnvSnapshot) -> Seq<char> {
    match env.home {
        Some(h) => h@ + "/AUR"@,
        None => match env.current_dir {
            Some(c) => c@ + "/AUR"@,
            None => Seq::empty(),
        },
    }
}

/// Resolves the default AUR directory from an environment snapshot, or
/// nothing when the environment offers neither a home nor a current
/// directory.
pub fn get_fallback_aur_dir(env: &EnvSnapshot) -> (r: Option<String>)
    ensures
        r is Some <==> (env.home is Some || env.current_dir is Some),
        r matches Some(d) ==> d@ == fallback_dir_of(*env),
{
    match &env.home {
        Some(h) => Some(h.clone().concat("/AUR")),
        None => match &env.current_dir {
            Some(c) => Some(c.clone().concat("/AUR")),
            None => None,
        },
    }
}

/// The command-line front end's state: the default AUR directory offered
/// when the user names none.
#[derive(Debug, Clone)]
pub struct Cli {
    default_dir: String,
}

impl View for Cli {
    type V = Seq<char>;

    closed spec fn view(&self) -> Seq<char> {
        self.default_dir@
    }
}

impl Cli {
    /// Sets the default AUR directory from the configuration when one is
    /// given, and from the environment otherwise.  An environment that
    /// offers neither a home nor a current directory cannot stand in for a
    /// missing configuration.
    pub fn new(config_file: Option<Config>, env: &EnvSnapshot) -> (r: Cli)
        requires
            config_file is None ==> (env.home is Some || env.current_dir is Some),
        ensures
            match config_file {
                Some(config) => r@ == config@,
                None => r@ == fallback_dir_of(*env),
            },
    {
        let default_dir = match config_file {
            Some(config) => config.aur_dir,
            None => match get_fallback_aur_dir(env) {
                Some(d) => d,
                None => unreached(),
            },
        };
        Cli { default_dir }
    }

    /// The default AUR directory.
    pub fn get_aur_dir(&self) -> (r: String)
        ensures
            r@ == self@,
    {
        self.default_dir.clone()
    }
}

/// Turns a package name into a clone link under the AUR, and leaves
/// anything already holding a slash untouched.
pub fn string_to_link(package: &String) -> (r: String)
    ensures
        package@.contains('/') ==> r@ == package@,
        !package@.contains('/') ==> r@ == "https://aur.archlinux.org/"@ + package@ + ".git"@,
{
    match crate::dir_func::find_first_char(package.as_str(), '/') {
        Some(_) => package.clone(),
        None => String::from_str("https://aur.archlinux.org/").concat(package.as_str()).concat(
            ".git",
        ),
    }
}

/// Interprets the line read from standard input at a confirmation prompt.
/// A bare newline or a literal `Y` accepts; any other input, or a read
/// error (`None`), rejects.
pub fn is_confirmation(input: &Option<String>) -> (r: bool)
    ensures
        r == match input {
            Some(s) => s@ == "\n"@ || s@ == "Y"@,
            None => false,
        },
{
    match input {
        Some(s) => {
            let newline = String::from_str("\n");
            let yes = String::from_str("Y");
            *s == newline || *s == yes
        },
        None => false,
    }
}

} // verus!
