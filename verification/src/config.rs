//! Where the bindings are read from: the choice of the file and of its format.

use crate::whichtree::chars_of;
use vstd::prelude::*;

verus! {

/// What the command line asks for.
#[derive(Clone, Debug, PartialEq, Eq)]
pub struct Args {
    /// The file of bindings to read in place of the one at the usual place.
    pub input: Option<String>,
    /// The file of styles to read in place of the one at the usual place.
    pub style: Option<String>,
    /// Only check the files for errors.
    pub validate: bool,
}

impl Default for Args {
    /// Nothing asked for.
    fn default() -> (args: Args)
        ensures
            args.input is None,
            args.style is None,
            !args.validate,
    {
        Args { input: None, style: None, validate: false }
    }
}

/// The text of a file of bindings, by the format that it is written in.
#[derive(Clone, Debug, PartialEq, Eq)]
pub enum Filetype {
    Json(String),
    Ron(String),
}

/// Why no file of bindings could be chosen or read.
#[derive(Clone, Debug, PartialEq, Eq)]
pub enum ConfigError {
    /// Neither a configuration directory nor a home directory is known.
    NoHome,
    /// The file that was asked for is not there.
    MissingInput(String),
    /// No file of this name is at the usual place, in either format.
    NotFound(String),
    /// The name of the file has no extension to tell its format by.
    NoExtension,
    /// The extension of the file names a format that is not read.
    Unsupported(String),
}

/// The message for an error.
pub open spec fn message_of(error: ConfigError) -> Seq<char> {
    match error {
        ConfigError::NoHome => "Unable to find Home"@,
        ConfigError::MissingInput(path) => "Input file "@ + path@ + " does not exists"@,
        ConfigError::NotFound(name) => "Unable to find "@ + name@ + " file"@,
        ConfigError::NoExtension => "File has no valid extension"@,
        ConfigError::Unsupported(extension) => "File type "@ + extension@ + " is not supported"@,
    }
}

impl ConfigError {
    /// The message for this error.
    pub fn message(&self) -> (text: String)
        ensures
            text@ == message_of(*self),
    {
        match self {
            ConfigError::NoHome => String::from_str("Unable to find Home"),
            ConfigError::MissingInput(path) => {
                let mut text = String::from_str("Input file ");
                text.append(path.as_str());
                text.append(" does not exists");
                text
            },
            ConfigError::NotFound(name) => {
                let mut text = String::from_str("Unable to find ");
                text.append(name.as_str());
                text.append(" file");
                text
            },
            ConfigError::NoExtension => String::from_str("File has no valid extension"),
            ConfigError::Unsupported(extension) => {
                let mut text = String::from_str("File type ");
                text.append(extension.as_str());
                text.append(" is not supported");
                text
            },
        }
    }
}

/// The directory under which the configuration lies.
#[derive(Clone, Debug, PartialEq, Eq)]
pub enum ConfigDir {
    /// This directory itself.
    Given(String),
    /// The directory `.config` under this home directory.
    UnderHome(String),
}

/// Chooses the configuration directory: the one that the environment names,
/// else the one under the home directory, else none.
pub fn config_dir(xdg_config_home: Option<String>, home: Option<String>) -> (r: Result<
    ConfigDir,
    ConfigError,
>)
    ensures
        r == match (xdg_config_home, home) {
            (Some(dir), _) => Ok::<ConfigDir, ConfigError>(ConfigDir::Given(dir)),
            (None, Some(dir)) => Ok(ConfigDir::UnderHome(dir)),
            (None, None) => Err(ConfigError::NoHome),
        },
{
    match xdg_config_home {
        Some(dir) => Ok(ConfigDir::Given(dir)),
        None => match home {
            Some(dir) => Ok(ConfigDir::UnderHome(dir)),
            None => Err(ConfigError::NoHome),
        },
    }
}

/// Whether two strings hold the same characters.
fn same_text(a: &str, b: &str) -> (same: bool)
    ensures
        same == (a@ == b@),
{
    let left = chars_of(a);
    let right = chars_of(b);
    if left.len() != right.len() {
        return false;
    }
    let mut i: usize = 0;
    while i < left.len()
        invariant
            i <= left.len(),
            left.len() == right.len(),
            left@ == a@,
            right@ == b@,
            forall|j: int| 0 <= j < i ==> left@[j] == right@[j],
        decreases left.len() - i,
    {
        if left[i] != right[i] {
            return false;
        }
        i += 1;
    }
    assert(a@ =~= b@);
    true
}

/// What [`classify`] gives for an extension and the text of a file.
pub open spec fn classified(
    extension: Option<&str>,
    contents: String,
    r: Result<Filetype, ConfigError>,
) -> bool {
    match extension {
        None => r == Err::<Filetype, ConfigError>(ConfigError::NoExtension),
        Some(ext) => if ext@ == "json"@ {
            r == Ok::<Filetype, ConfigError>(Filetype::Json(contents))
        } else if ext@ == "ron"@ {
            r == Ok::<Filetype, ConfigError>(Filetype::Ron(contents))
        } else {
            r matches Err(ConfigError::Unsupported(name)) && name@ == ext@
        },
    }
}

/// Tells the format of a file by the extension of its name and wraps the text
/// of the file accordingly: `json` and `ron` are read, any other extension is
/// refused by name, and so is a name without extension.
pub fn classify(extension: Option<&str>, contents: String) -> (r: Result<Filetype, ConfigError>)
    ensures
        classified(extension, contents, r),
{
    match extension {
        None => Err(ConfigError::NoExtension),
        Some(ext) => {
            if same_text(ext, "json") {
                Ok(Filetype::Json(contents))
            } else if same_text(ext, "ron") {
                Ok(Filetype::Ron(contents))
            } else {
                Err(ConfigError::Unsupported(String::from_str(ext)))
            }
        },
    }
}

/// The name of the file of bindings `name` in the format with this extension.
pub open spec fn file_name(name: Seq<char>, extension: Seq<char>) -> Seq<char> {
    name + seq!['.'] + extension
}

/// Accepts the file that was asked for where it is there.
pub fn choose_input(input: String, present: bool) -> (r: Result<String, ConfigError>)
    ensures
        present ==> r == Ok::<String, ConfigError>(input),
        !present ==> r == Err::<String, ConfigError>(ConfigError::MissingInput(input)),
{
    if present {
        Ok(input)
    } else {
        Err(ConfigError::MissingInput(input))
    }
}

/// What [`choose_default`] gives.
pub open spec fn chosen_default(
    name: Seq<char>,
    json_present: bool,
    ron_present: bool,
    r: Result<String, ConfigError>,
) -> bool {
    match r {
        Ok(file) => if json_present {
            file@ == file_name(name, "json"@)
        } else {
            ron_present && file@ == file_name(name, "ron"@)
        },
        Err(e) => {
            &&& !json_present
            &&& !ron_present
            &&& e matches ConfigError::NotFound(n)
            &&& n@ == name
        },
    }
}

/// Chooses among the files at the usual place: `name.json` where it is there,
/// else `name.ron` where that is there, else none.
pub fn choose_default(name: &str, json_present: bool, ron_present: bool) -> (r: Result<
    String,
    ConfigError,
>)
    ensures
        chosen_default(name@, json_present, ron_present, r),
{
    proof {
        reveal_strlit(".");
        assert("."@ =~= seq!['.']);
    }
    if json_present {
        let mut file = String::from_str(name);
        file.append(".");
        file.append("json");
        Ok(file)
    } else if ron_present {
        let mut file = String::from_str(name);
        file.append(".");
        file.append("ron");
        Ok(file)
    } else {
        Err(ConfigError::NotFound(String::from_str(name)))
    }
}

} // verus!
