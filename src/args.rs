//! Where the backing document is: a path from the command line, else from
//! the environment, else the default.
use vstd::prelude::*;

verus! {

/// The path of the backing document when nothing else names one.
pub open spec fn default_path() -> Seq<char> {
    "desired_state.yml"@
}

/// The flag that names the backing document.
pub open spec fn file_flag() -> Seq<char> {
    "--file"@
}

/// What a command line says.
pub enum ArgsMeaning {
    Path(Seq<char>),
    MissingFilePath,
    Unknown(Seq<char>),
}

/// A command line that could not be read.
pub enum ArgError {
    /// The flag `--file` ends the command line, without a path after it.
    MissingFilePath,
    /// An argument that means nothing here.
    UnknownArgument { argument: String },
}

impl ArgError {
    pub open spec fn meaning(&self) -> ArgsMeaning {
        match self {
            ArgError::MissingFilePath => ArgsMeaning::MissingFilePath,
            ArgError::UnknownArgument { argument } => ArgsMeaning::Unknown(argument@),
        }
    }

    /// The message that reports this error.
    pub fn message(&self) -> (r: String)
        ensures
            self is MissingFilePath ==> r@ == "--file requires a path"@,
            self matches ArgError::UnknownArgument { argument } ==> r@ == "unknown argument: "@ + argument@,
    {
        match self {
            ArgError::MissingFilePath => "--file requires a path".to_string(),
            ArgError::UnknownArgument { argument } => {
                let mut r = "unknown argument: ".to_string();
                r.append(argument.as_str());
                r
            },
        }
    }
}

/// What `args` say, where `current` is the path named so far: each
/// `--file <path>` names a path, the last one wins, and any other argument
/// is an error.
pub open spec fn strict_meaning(args: Seq<Seq<char>>, current: Seq<char>) -> ArgsMeaning
    decreases args.len(),
{
    if args.len() == 0 {
        ArgsMeaning::Path(current)
    } else if args[0] == file_flag() {
        if args.len() < 2 {
            ArgsMeaning::MissingFilePath
        } else {
            strict_meaning(args.skip(2), args[1])
        }
    } else {
        ArgsMeaning::Unknown(args[0])
    }
}

/// As `strict_meaning`, but arguments other than `--file` are passed over.
pub open spec fn lenient_meaning(args: Seq<Seq<char>>, current: Seq<char>) -> ArgsMeaning
    decreases args.len(),
{
    if args.len() == 0 {
        ArgsMeaning::Path(current)
    } else if args[0] == file_flag() {
        if args.len() < 2 {
            ArgsMeaning::MissingFilePath
        } else {
            lenient_meaning(args.skip(2), args[1])
        }
    } else {
        lenient_meaning(args.skip(1), current)
    }
}

/// The path to start from: the one the environment names, else the default.
pub open spec fn start_path(from_env: Option<String>) -> Seq<char> {
    match from_env {
        Some(p) => p@,
        None => default_path(),
    }
}

pub open spec fn views(args: Seq<String>) -> Seq<Seq<char>> {
    args.map_values(|a: String| a@)
}

pub open spec fn result_meaning(r: Result<String, ArgError>) -> ArgsMeaning {
    match r {
        Ok(p) => ArgsMeaning::Path(p@),
        Err(e) => e.meaning(),
    }
}

fn default_or(from_env: Option<String>) -> (r: String)
    ensures
        r@ == start_path(from_env),
{
    match from_env {
        Some(p) => p,
        None => {
            proof {
                reveal_strlit("desired_state.yml");
            }
            "desired_state.yml".to_string()
        },
    }
}

/// The path of the backing document that a command line names, where every
/// argument must be a `--file <path>`.
pub fn parse_args(args: &Vec<String>, from_env: Option<String>) -> (r: Result<String, ArgError>)
    ensures
        result_meaning(r) == strict_meaning(views(args@), start_path(from_env)),
{
    let ghost all = views(args@);
    let mut path = default_or(from_env);
    let flag = "--file".to_string();
    let mut idx: usize = 0;
    proof {
        reveal_strlit("--file");
        assert(all.skip(0) =~= all);
    }
    while idx < args.len()
        invariant
            idx <= args@.len(),
            all == views(args@),
            flag@ == file_flag(),
            strict_meaning(all, start_path(from_env)) == strict_meaning(all.skip(idx as int), path@),
        decreases args@.len() - idx,
    {
        let ghost rest = all.skip(idx as int);
        assert(rest[0] == args@[idx as int]@);
        if args[idx] == flag {
            if idx + 1 >= args.len() {
                return Err(ArgError::MissingFilePath);
            }
            path = args[idx + 1].clone();
            proof {
                assert(rest.skip(2) =~= all.skip(idx + 2));
                assert(rest[1] == args@[idx + 1]@);
            }
            idx = idx + 2;
        } else {
            return Err(ArgError::UnknownArgument { argument: args[idx].clone() });
        }
    }
    proof {
        assert(all.skip(idx as int) =~= Seq::<Seq<char>>::empty());
    }
    Ok(path)
}

/// The path of the backing document that a command line names; arguments
/// other than `--file <path>` are passed over.
pub fn resolve_state_path(args: &Vec<String>, from_env: Option<String>) -> (r: Result<String, ArgError>)
    ensures
        result_meaning(r) == lenient_meaning(views(args@), start_path(from_env)),
{
    let ghost all = views(args@);
    let mut path = default_or(from_env);
    let flag = "--file".to_string();
    let mut idx: usize = 0;
    proof {
        reveal_strlit("--file");
        assert(all.skip(0) =~= all);
    }
    while idx < args.len()
        invariant
            idx <= args@.len(),
            all == views(args@),
            flag@ == file_flag(),
            lenient_meaning(all, start_path(from_env)) == lenient_meaning(all.skip(idx as int), path@),
        decreases args@.len() - idx,
    {
        let ghost rest = all.skip(idx as int);
        assert(rest[0] == args@[idx as int]@);
        if args[idx] == flag {
            if idx + 1 >= args.len() {
                return Err(ArgError::MissingFilePath);
            }
            path = args[idx + 1].clone();
            proof {
                assert(rest.skip(2) =~= all.skip(idx + 2));
                assert(rest[1] == args@[idx + 1]@);
            }
            idx = idx + 2;
        } else {
            proof {
                assert(rest.skip(1) =~= all.skip(idx + 1));
            }
            idx = idx + 1;
        }
    }
    proof {
        assert(all.skip(idx as int) =~= Seq::<Seq<char>>::empty());
    }
    Ok(path)
}

} // verus!
