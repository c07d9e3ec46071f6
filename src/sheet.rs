use vstd::prelude::*;

verus! {

/// What `Path::join` makes of a base path and a relative part, on the
/// platform the library is built for.
pub uninterp spec fn joined_path(base: Seq<char>, part: Seq<char>) -> Seq<char>;

/// Relies on `Path::join`: the part appended to the base with the platform's
/// separator (or in its place, where the part is absolute).
#[verifier::external_body]
fn join_path(base: &str, part: &str) -> (r: String)
    ensures
        r@ == joined_path(base@, part@),
{
    std::path::Path::new(base).join(part).to_string_lossy().into_owned()
}

/// The directory under the configuration root that holds the sheets.
pub open spec fn app_dir() -> Seq<char> {
    seq!['c', 'h', 'e', 'e', 't', 's', 'h', 'e', 'e', 't']
}

/// Where the sheets are: the directory asked for; else under the XDG
/// configuration root; else under `.config` in the home directory, or in the
/// current directory where there is no home.
pub open spec fn config_dir_spec(
    custom: Option<Seq<char>>,
    xdg: Option<Seq<char>>,
    home: Option<Seq<char>>,
) -> Seq<char> {
    match custom {
        Some(d) => d,
        None => match xdg {
            Some(x) => joined_path(x, app_dir()),
            None => {
                let root = match home {
                    Some(h) => h,
                    None => seq!['.'],
                };
                joined_path(joined_path(root, seq!['.', 'c', 'o', 'n', 'f', 'i', 'g']), app_dir())
            },
        },
    }
}

pub open spec fn opt_view(o: Option<&str>) -> Option<Seq<char>> {
    match o {
        Some(s) => Some(s@),
        None => None,
    }
}

/// Chooses the directory that holds the sheets, from a directory asked for,
/// the XDG configuration root and the home directory, where each is known.
pub fn resolve_config_dir(custom: Option<&str>, xdg: Option<&str>, home: Option<&str>) -> (r:
    String)
    ensures
        r@ == config_dir_spec(opt_view(custom), opt_view(xdg), opt_view(home)),
{
    proof {
        reveal_strlit("cheetsheet");
        reveal_strlit(".config");
        reveal_strlit(".");
        assert("cheetsheet"@ =~= app_dir());
        assert(".config"@ =~= seq!['.', 'c', 'o', 'n', 'f', 'i', 'g']);
        assert("."@ =~= seq!['.']);
    }
    match custom {
        Some(dir) => String::from_str(dir),
        None => match xdg {
            Some(x) => join_path(x, "cheetsheet"),
            None => {
                let root = match home {
                    Some(h) => h,
                    None => ".",
                };
                let config = join_path(root, ".config");
                join_path(config.as_str(), "cheetsheet")
            },
        },
    }
}

/// The file name of the sheet for a command.
pub open spec fn sheet_file(command: Seq<char>) -> Seq<char> {
    command + seq!['.', 'm', 'd']
}

/// The path where the sheet for `command` is looked for.
pub fn sheet_path(config_dir: &str, command: &str) -> (r: String)
    ensures
        r@ == joined_path(config_dir@, sheet_file(command@)),
{
    let mut name = String::from_str(command);
    proof {
        reveal_strlit(".md");
        assert(".md"@ =~= seq!['.', 'm', 'd']);
    }
    name.append(".md");
    assert(name@ =~= sheet_file(command@));
    join_path(config_dir, name.as_str())
}

/// Why no sheet could be shown.
pub enum SheetError {
    /// No file stands at the expected path.
    NotFound { command: String, expected: String },
}

pub open spec fn not_found_message(command: Seq<char>, expected: Seq<char>) -> Seq<char> {
    "No cheatsheet found for '"@ + command + "'.\nExpected: "@ + expected
        + "\nTip: create a markdown file at that path to get started."@
}

impl SheetError {
    /// The message shown to the user.
    pub fn message(&self) -> (r: String)
        ensures
            self matches SheetError::NotFound { command, expected } && r@ == not_found_message(
                command@,
                expected@,
            ),
    {
        match self {
            SheetError::NotFound { command, expected } => {
                let mut m = String::from_str("No cheatsheet found for '");
                m.append(command.as_str());
                m.append("'.\nExpected: ");
                m.append(expected.as_str());
                m.append("\nTip: create a markdown file at that path to get started.");
                m
            },
        }
    }
}

/// The sheet for `command` under `config_dir`, given whether a file stands
/// at [`sheet_path`]: its path where it does, else which path was expected.
pub fn find_sheet(config_dir: &str, command: &str, exists: bool) -> (r: Result<String, SheetError>)
    ensures
        exists ==> (r matches Ok(p) && p@ == joined_path(config_dir@, sheet_file(command@))),
        !exists ==> (r matches Err(SheetError::NotFound { command: c, expected: e }) && c@
            == command@ && e@ == joined_path(config_dir@, sheet_file(command@))),
{
    let path = sheet_path(config_dir, command);
    if exists {
        Ok(path)
    } else {
        Err(SheetError::NotFound { command: String::from_str(command), expected: path })
    }
}

} // verus!
