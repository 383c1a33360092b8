//! What a lab needs of the machine before it can start.

use crate::protocol::{LabConfig, LabConfigView};
use crate::text::{chars_of, join2, join3, text_of, texts_view};
use vstd::prelude::*;

verus! {

/// What was found at a path.
#[derive(Debug)]
pub struct Found {
    /// The path with all links resolved.
    pub path: String,
    /// Whether a thing of the wanted kind is there.
    pub fits: bool,
}

/// What was found of the things that a lab needs.
#[derive(Debug)]
pub struct ConfigProbe {
    pub workspace: Option<Found>,
    pub program: Option<Found>,
    pub debugger: Option<String>,
    pub python: Option<String>,
}

/// Why a lab cannot start.
#[derive(Debug, Clone, Copy, PartialEq, Eq, Structural)]
pub enum ConfigError {
    NoWorkspace,
    WorkspaceIsNoDirectory,
    NoProgram,
    ProgramIsNoFile,
    NoDebugger,
    NoPython,
}

/// What is said of a lab that cannot start.
pub open spec fn config_error_text(error: ConfigError) -> Seq<char> {
    match error {
        ConfigError::NoWorkspace => "workspace does not exist"@,
        ConfigError::WorkspaceIsNoDirectory => "workspace is not a directory"@,
        ConfigError::NoProgram => "program does not exist"@,
        ConfigError::ProgramIsNoFile => "program is not a file"@,
        ConfigError::NoDebugger => "debugger executable not found"@,
        ConfigError::NoPython => "Python interpreter not found"@,
    }
}

impl ConfigError {
    /// What is said of a lab that cannot start.
    pub fn message(self) -> (r: &'static str)
        ensures
            r@ == config_error_text(self),
    {
        match self {
            ConfigError::NoWorkspace => "workspace does not exist",
            ConfigError::WorkspaceIsNoDirectory => "workspace is not a directory",
            ConfigError::NoProgram => "program does not exist",
            ConfigError::ProgramIsNoFile => "program is not a file",
            ConfigError::NoDebugger => "debugger executable not found",
            ConfigError::NoPython => "Python interpreter not found",
        }
    }
}

/// A configuration with the paths that were found, or the first thing that was not.
pub open spec fn validated(config: LabConfigView, probe: ConfigProbe) -> Result<
    LabConfigView,
    ConfigError,
> {
    match probe.workspace {
        None => Err(ConfigError::NoWorkspace),
        Some(workspace) => if !workspace.fits {
            Err(ConfigError::WorkspaceIsNoDirectory)
        } else {
            match probe.program {
                None => Err(ConfigError::NoProgram),
                Some(program) => if !program.fits {
                    Err(ConfigError::ProgramIsNoFile)
                } else {
                    match (probe.debugger, probe.python) {
                        (None, _) => Err(ConfigError::NoDebugger),
                        (Some(_), None) => Err(ConfigError::NoPython),
                        (Some(debugger), Some(python)) => Ok(
                            LabConfigView {
                                workspace: workspace.path@,
                                program: program.path@,
                                debugger: debugger@,
                                python: python@,
                                ..config
                            },
                        ),
                    }
                },
            }
        },
    }
}

/// Puts the paths that were found into a configuration. Where something is missing, the
/// configuration stays as it was.
pub fn validate_config(config: &mut LabConfig, probe: ConfigProbe) -> (r: Result<(), ConfigError>)
    ensures
        match r {
            Ok(()) => validated(old(config)@, probe) == Ok::<LabConfigView, ConfigError>(
                final(config)@,
            ),
            Err(error) => validated(old(config)@, probe) == Err::<LabConfigView, ConfigError>(error)
                && final(config)@ == old(config)@,
        },
{
    let workspace = match probe.workspace {
        Some(workspace) => workspace,
        None => {
            return Err(ConfigError::NoWorkspace);
        },
    };
    if !workspace.fits {
        return Err(ConfigError::WorkspaceIsNoDirectory);
    }
    let program = match probe.program {
        Some(program) => program,
        None => {
            return Err(ConfigError::NoProgram);
        },
    };
    if !program.fits {
        return Err(ConfigError::ProgramIsNoFile);
    }
    let debugger = match probe.debugger {
        Some(debugger) => debugger,
        None => {
            return Err(ConfigError::NoDebugger);
        },
    };
    let python = match probe.python {
        Some(python) => python,
        None => {
            return Err(ConfigError::NoPython);
        },
    };
    config.workspace = workspace.path;
    config.program = program.path;
    config.debugger = debugger;
    config.python = python;
    Ok(())
}

/// A configuration that was made valid stays as it is when the same things are found again.
pub proof fn law_valid_config_stays_valid(config: LabConfigView, probe: ConfigProbe)
    requires
        validated(config, probe) is Ok,
    ensures
        validated(validated(config, probe)->Ok_0, probe) == validated(config, probe),
        validated(config, probe)->Ok_0.args == config.args,
        validated(config, probe)->Ok_0.objective == config.objective,
{
}

/// Where an executable is looked for.
#[derive(Debug, PartialEq, Eq)]
pub enum ExecutableSearch {
    /// At an absolute path.
    At(String),
    /// At a path below the current directory.
    BelowCurrentDir(String),
    /// In the directories that `PATH` lists.
    OnPath(String),
}

/// Looks at how an executable is given. One that is given by a path is not looked for on `PATH`.
pub fn executable_search(value: &str) -> (r: ExecutableSearch)
    ensures
        match r {
            ExecutableSearch::At(path) => path@ == value@ && value@.contains('/') && value@[0]
                == '/',
            ExecutableSearch::BelowCurrentDir(path) => path@ == value@ && value@.contains('/')
                && value@[0] != '/',
            ExecutableSearch::OnPath(name) => name@ == value@ && !value@.contains('/'),
        },
{
    let chars = chars_of(value);
    let mut i: usize = 0;
    while i < chars.len() && chars[i] != '/'
        invariant
            i <= chars@.len(),
            forall|j: int| 0 <= j < i ==> #[trigger] chars@[j] != '/',
        decreases chars@.len() - i,
    {
        i += 1;
    }
    if i == chars.len() {
        ExecutableSearch::OnPath(value.to_owned())
    } else {
        assert(value@[i as int] == '/');
        if chars[0] == '/' {
            ExecutableSearch::At(value.to_owned())
        } else {
            ExecutableSearch::BelowCurrentDir(value.to_owned())
        }
    }
}

/// Some pieces with one more character at the end of the last one.
pub open spec fn with_last(pieces: Seq<Seq<char>>, c: char) -> Seq<Seq<char>> {
    pieces.drop_last().push(pieces.last().push(c))
}

/// The pieces of a text between the separators in it.
pub open spec fn pieces(text: Seq<char>, separator: char) -> Seq<Seq<char>>
    decreases text.len(),
{
    if text.len() == 0 {
        seq![seq![]]
    } else if text.last() == separator {
        pieces(text.drop_last(), separator).push(seq![])
    } else {
        with_last(pieces(text.drop_last(), separator), text.last())
    }
}

/// The pieces of a text, put together again with separators between them.
pub open spec fn glued(pieces: Seq<Seq<char>>, separator: char) -> Seq<char>
    decreases pieces.len(),
{
    if pieces.len() == 0 {
        seq![]
    } else if pieces.len() == 1 {
        pieces[0]
    } else {
        glued(pieces.drop_last(), separator).push(separator) + pieces.last()
    }
}

/// The pieces of a text hold no separator, and make up the text with separators between them.
pub proof fn law_pieces_make_up_the_text(text: Seq<char>, separator: char)
    ensures
        pieces(text, separator).len() > 0,
        glued(pieces(text, separator), separator) == text,
        forall|i: int|
            0 <= i < pieces(text, separator).len() ==> !(#[trigger] pieces(
                text,
                separator,
            )[i]).contains(separator),
    decreases text.len(),
{
    if text.len() == 0 {
        assert(glued(pieces(text, separator), separator) =~= text);
    } else {
        let front = text.drop_last();
        let before = pieces(front, separator);
        let after = pieces(text, separator);
        law_pieces_make_up_the_text(front, separator);
        assert(text =~= front.push(text.last()));
        if text.last() == separator {
            assert(after.drop_last() =~= before);
            assert(glued(after, separator) =~= text);
        } else {
            assert(after.drop_last() =~= before.drop_last());
            assert(glued(after, separator) =~= glued(before, separator).push(text.last()));
            assert forall|i: int| 0 <= i < after.len() implies !(#[trigger] after[i]).contains(
                separator,
            ) by {
                if i < after.len() - 1 {
                    assert(after[i] == before[i]);
                } else {
                    assert(!before[i].contains(separator));
                    if after[i].contains(separator) {
                        let k = choose|k: int| 0 <= k < after[i].len() && after[i][k] == separator;
                        assert(before[i][k] == separator);
                    }
                }
            }
        }
    }
}

/// The path of a file in a directory. The file is in the current directory where the name of the
/// directory is empty.
pub open spec fn path_in(dir: Seq<char>, name: Seq<char>) -> Seq<char> {
    if dir.len() == 0 || dir.last() == '/' {
        dir + name
    } else {
        dir + "/"@ + name
    }
}

/// The path of a file in a directory.
fn join_path(dir: &Vec<char>, name: &str) -> (r: String)
    ensures
        r@ == path_in(dir@, name@),
{
    let text = text_of(dir.as_slice());
    if dir.len() == 0 || dir[dir.len() - 1] == '/' {
        join2(&text, name)
    } else {
        join3(&text, "/", name)
    }
}

/// Where an executable can be, by what `PATH` lists: once in each directory, in their order.
pub fn path_candidates(path: &str, name: &str) -> (r: Vec<String>)
    ensures
        texts_view(r@) == pieces(path@, ':').map_values(|dir: Seq<char>| path_in(dir, name@)),
{
    let chars = chars_of(path);
    let ghost f = |dir: Seq<char>| path_in(dir, name@);
    let mut out: Vec<String> = Vec::new();
    let mut dir: Vec<char> = Vec::new();
    let mut i: usize = 0;
    assert(path@.take(0) =~= seq![]);
    assert(pieces(path@.take(0), ':') =~= seq![seq![]]);
    while i < chars.len()
        invariant
            i <= chars@.len(),
            chars@ == path@,
            f == |dir: Seq<char>| path_in(dir, name@),
            pieces(path@.take(i as int), ':').len() > 0,
            dir@ == pieces(path@.take(i as int), ':').last(),
            texts_view(out@) == pieces(path@.take(i as int), ':').drop_last().map_values(f),
        decreases chars@.len() - i,
    {
        let ghost before = pieces(path@.take(i as int), ':');
        assert(path@.take(i + 1).drop_last() =~= path@.take(i as int));
        if chars[i] == ':' {
            let ghost done = out@;
            let candidate = join_path(&dir, name);
            out.push(candidate);
            assert(texts_view(out@) =~= texts_view(done).push(candidate@));
            assert(before.push(seq![]).drop_last() =~= before);
            assert(before.map_values(f) =~= before.drop_last().map_values(f).push(
                f(before.last()),
            ));
            dir = Vec::new();
        } else {
            dir.push(chars[i]);
            assert(with_last(before, chars@[i as int]).drop_last() =~= before.drop_last());
        }
        i += 1;
    }
    assert(path@.take(i as int) =~= path@);
    let ghost all = pieces(path@, ':');
    let ghost done = out@;
    let candidate = join_path(&dir, name);
    out.push(candidate);
    assert(texts_view(out@) =~= texts_view(done).push(candidate@));
    assert(all.map_values(f) =~= all.drop_last().map_values(f).push(f(all.last())));
    out
}

/// Whether a place is the first of some places at which a file is.
pub open spec fn first_file(files: Seq<bool>, i: int) -> bool {
    &&& 0 <= i < files.len()
    &&& files[i]
    &&& forall|j: int| 0 <= j < i ==> !(#[trigger] files[j])
}

/// The first of the places in which an executable can be at which a file is.
pub fn resolve_executable(candidates: &Vec<String>, files: &Vec<bool>) -> (r: Option<String>)
    requires
        candidates@.len() == files@.len(),
    ensures
        match r {
            Some(path) => exists|i: int| #[trigger] first_file(files@, i) && path@ == candidates@[i]@,
            None => forall|i: int| 0 <= i < files@.len() ==> !(#[trigger] files@[i]),
        },
{
    let mut i: usize = 0;
    while i < files.len()
        invariant
            i <= files@.len(),
            candidates@.len() == files@.len(),
            forall|j: int| 0 <= j < i ==> !(#[trigger] files@[j]),
        decreases files@.len() - i,
    {
        if files[i] {
            assert(first_file(files@, i as int));
            return Some(candidates[i].clone());
        }
        i += 1;
    }
    None
}

/// A lab can start where its directory, its program, its debugger and its interpreter were all
/// found, and then its configuration holds what was found. Else the first thing that is missing or
/// of the wrong kind is named, in this order.
pub proof fn law_what_is_missing_is_named(config: LabConfigView, probe: ConfigProbe)
    ensures
        validated(config, probe) == Err::<LabConfigView, ConfigError>(ConfigError::NoWorkspace)
            <==> probe.workspace is None,
        validated(config, probe) == Err::<LabConfigView, ConfigError>(
            ConfigError::WorkspaceIsNoDirectory,
        ) <==> (probe.workspace matches Some(found) && !found.fits),
        validated(config, probe) == Err::<LabConfigView, ConfigError>(ConfigError::NoProgram) <==> (
        probe.workspace matches Some(found) && found.fits && probe.program is None),
        validated(config, probe) == Err::<LabConfigView, ConfigError>(ConfigError::ProgramIsNoFile)
            <==> (probe.workspace matches Some(found) && found.fits && (
        probe.program matches Some(program) && !program.fits)),
        validated(config, probe) is Ok <==> {
            &&& probe.workspace matches Some(found) && found.fits
            &&& probe.program matches Some(program) && program.fits
            &&& probe.debugger is Some
            &&& probe.python is Some
        },
        validated(config, probe) == Err::<LabConfigView, ConfigError>(ConfigError::NoPython) ==> {
            &&& probe.debugger is Some
            &&& probe.python is None
        },
        validated(config, probe) == Err::<LabConfigView, ConfigError>(ConfigError::NoDebugger)
            ==> probe.debugger is None,
        validated(config, probe) is Ok ==> validated(config, probe)->Ok_0 == (LabConfigView {
            workspace: probe.workspace->Some_0.path@,
            program: probe.program->Some_0.path@,
            debugger: probe.debugger->Some_0@,
            python: probe.python->Some_0@,
            args: config.args,
            objective: config.objective,
        }),
{
}

/// What is said of a lab that cannot start.
pub proof fn law_the_learner_is_told_what_is_missing()
    ensures
        config_error_text(ConfigError::NoWorkspace) == "workspace does not exist"@,
        config_error_text(ConfigError::WorkspaceIsNoDirectory) == "workspace is not a directory"@,
        config_error_text(ConfigError::NoProgram) == "program does not exist"@,
        config_error_text(ConfigError::ProgramIsNoFile) == "program is not a file"@,
        config_error_text(ConfigError::NoDebugger) == "debugger executable not found"@,
        config_error_text(ConfigError::NoPython) == "Python interpreter not found"@,
{
}

/// A file is looked for below a directory: with one slash between the two, which the name of the
/// directory may end with, and by its name alone where the directory has none.
pub proof fn law_files_stand_below_their_directory(dir: Seq<char>, name: Seq<char>)
    requires
        dir.len() > 0,
        dir.last() != '/',
    ensures
        path_in(dir, name) == dir + seq!['/'] + name,
        path_in(dir + seq!['/'], name) == dir + seq!['/'] + name,
        path_in(seq![], name) == name,
{
    reveal_strlit("/");
    assert("/"@ =~= seq!['/']);
    assert(Seq::<char>::empty() + name =~= name);
}

} // verus!
