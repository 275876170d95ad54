//! Command-line configuration: which files to merge and where output goes.

use vstd::prelude::*;
use vstd::string::StrSliceExecFns;

verus! {

/// Mathematical model of a parsed configuration.
pub ghost struct ConfigView {
    pub verbose: int,
    pub directory: Option<Seq<char>>,
    pub output: Option<Seq<char>>,
    pub webfilename: Seq<char>,
    pub chfilenames: Seq<Seq<char>>,
}

/// Why the argument list was rejected.
pub ghost enum ConfigError {
    MissingDirectory,
    MissingOutput,
    NotEnoughArguments,
}

/// The run configuration: verbosity, optional working directory, optional
/// output destination, the base file, and the change files in order.
#[derive(Debug)]
pub struct Config {
    pub verbose: usize,
    pub directory: Option<String>,
    pub output: Option<String>,
    pub webfilename: String,
    pub chfilenames: Vec<String>,
}

pub open spec fn opt_view(o: Option<String>) -> Option<Seq<char>> {
    match o {
        Some(s) => Some(s@),
        None => None,
    }
}

pub open spec fn string_views(s: Seq<String>) -> Seq<Seq<char>> {
    s.map_values(|x: String| x@)
}

impl View for Config {
    type V = ConfigView;

    open spec fn view(&self) -> ConfigView {
        ConfigView {
            verbose: self.verbose as int,
            directory: opt_view(self.directory),
            output: opt_view(self.output),
            webfilename: self.webfilename@,
            chfilenames: string_views(self.chfilenames@),
        }
    }
}

/// How one argument steers the scan.
pub enum Flag {
    Verbose,
    VerboseTwice,
    Directory,
    Output,
    Terminator,
    Operand,
}

/// Classification of an argument: the recognised flags, the `--` terminator,
/// or an operand that ends flag scanning.
pub open spec fn spec_flag(s: Seq<char>) -> Flag {
    if s.len() == 2 && s[0] == '-' && s[1] == 'v' {
        Flag::Verbose
    } else if s.len() == 3 && s[0] == '-' && s[1] == 'v' && s[2] == 'v' {
        Flag::VerboseTwice
    } else if s.len() == 2 && s[0] == '-' && s[1] == 'w' {
        Flag::Directory
    } else if s.len() == 2 && s[0] == '-' && s[1] == 'o' {
        Flag::Output
    } else if s.len() == 2 && s[0] == '-' && s[1] == '-' {
        Flag::Terminator
    } else {
        Flag::Operand
    }
}

/// What is made of the operands once flag scanning stops at `i`: a base
/// filename and at least one change filename must remain.
pub open spec fn spec_finish(
    args: Seq<Seq<char>>,
    i: int,
    verbose: int,
    directory: Option<Seq<char>>,
    output: Option<Seq<char>>,
) -> Result<ConfigView, ConfigError> {
    if args.len() - i < 2 {
        Err(ConfigError::NotEnoughArguments)
    } else {
        Ok(
            ConfigView {
                verbose,
                directory,
                output,
                webfilename: args[i],
                chfilenames: args.subrange(i + 1, args.len() as int),
            },
        )
    }
}

/// The argument scan from position `i`: `-v` and `-vv` raise verbosity, `-w`
/// and `-o` take the following argument (missing ones are errors), `--` or
/// the first operand stops the scan, and what remains is the operands.
pub open spec fn spec_config(
    args: Seq<Seq<char>>,
    i: int,
    verbose: int,
    directory: Option<Seq<char>>,
    output: Option<Seq<char>>,
) -> Result<ConfigView, ConfigError>
    decreases args.len() - i,
{
    if i < 0 || i >= args.len() {
        spec_finish(args, i, verbose, directory, output)
    } else {
        match spec_flag(args[i]) {
            Flag::Verbose => spec_config(args, i + 1, verbose + 1, directory, output),
            Flag::VerboseTwice => spec_config(args, i + 1, verbose + 2, directory, output),
            Flag::Directory => if i + 1 < args.len() {
                spec_config(args, i + 2, verbose, Some(args[i + 1]), output)
            } else {
                Err(ConfigError::MissingDirectory)
            },
            Flag::Output => if i + 1 < args.len() {
                spec_config(args, i + 2, verbose, directory, Some(args[i + 1]))
            } else {
                Err(ConfigError::MissingOutput)
            },
            Flag::Terminator => spec_finish(args, i + 1, verbose, directory, output),
            Flag::Operand => spec_finish(args, i, verbose, directory, output),
        }
    }
}

/// The message each rejection carries.
pub open spec fn error_message(e: ConfigError) -> Seq<char> {
    match e {
        ConfigError::MissingDirectory => "-w require working directory"@,
        ConfigError::MissingOutput => "-o require output filename"@,
        ConfigError::NotEnoughArguments => "not enough arguments"@,
    }
}

fn classify_flag(s: &String) -> (k: Flag)
    ensures
        k == spec_flag(s@),
{
    let st = s.as_str();
    let n = st.unicode_len();
    if n == 2 {
        let c0 = st.get_char(0);
        let c1 = st.get_char(1);
        if c0 == '-' && c1 == 'v' {
            Flag::Verbose
        } else if c0 == '-' && c1 == 'w' {
            Flag::Directory
        } else if c0 == '-' && c1 == 'o' {
            Flag::Output
        } else if c0 == '-' && c1 == '-' {
            Flag::Terminator
        } else {
            Flag::Operand
        }
    } else if n == 3 {
        let c0 = st.get_char(0);
        let c1 = st.get_char(1);
        let c2 = st.get_char(2);
        if c0 == '-' && c1 == 'v' && c2 == 'v' {
            Flag::VerboseTwice
        } else {
            Flag::Operand
        }
    } else {
        Flag::Operand
    }
}

impl Config {
    /// Parse the argument list, program name first. Flags may precede the
    /// two or more filenames; an operand or `--` ends flag scanning.
    pub fn new(args: &[String]) -> (res: Result<Config, &'static str>)
        requires
            1 <= args@.len() <= usize::MAX / 2,
        ensures
            (match res {
                Ok(c) => spec_config(string_views(args@), 1, 0, None, None) == Ok::<
                    ConfigView,
                    ConfigError,
                >(c@),
                Err(m) => spec_config(string_views(args@), 1, 0, None, None) matches Err(e)
                    && m@ == error_message(e),
            }),
    {
        let ghost av = string_views(args@);
        let n = args.len();
        let mut directory: Option<String> = None;
        let mut output: Option<String> = None;
        let mut verbose: usize = 0;
        let mut i: usize = 1;
        let mut scanning = true;
        while scanning && i < n
            invariant
                1 <= i <= n,
                n == args@.len(),
                n <= usize::MAX / 2,
                av == string_views(args@),
                verbose <= 2 * i,
                scanning ==> spec_config(av, 1, 0, None, None) == spec_config(
                    av,
                    i as int,
                    verbose as int,
                    opt_view(directory),
                    opt_view(output),
                ),
                !scanning ==> spec_config(av, 1, 0, None, None) == spec_finish(
                    av,
                    i as int,
                    verbose as int,
                    opt_view(directory),
                    opt_view(output),
                ),
            decreases n - i + (if scanning {
                1int
            } else {
                0int
            }),
        {
            match classify_flag(&args[i]) {
                Flag::Verbose => {
                    verbose = verbose + 1;
                    i = i + 1;
                },
                Flag::VerboseTwice => {
                    verbose = verbose + 2;
                    i = i + 1;
                },
                Flag::Directory => {
                    if i + 1 < n {
                        directory = Some(args[i + 1].clone());
                        i = i + 2;
                    } else {
                        return Err("-w require working directory");
                    }
                },
                Flag::Output => {
                    if i + 1 < n {
                        output = Some(args[i + 1].clone());
                        i = i + 2;
                    } else {
                        return Err("-o require output filename");
                    }
                },
                Flag::Terminator => {
                    i = i + 1;
                    scanning = false;
                },
                Flag::Operand => {
                    scanning = false;
                },
            }
        }
        proof {
            if scanning {
                assert(spec_config(av, i as int, verbose as int, opt_view(directory), opt_view(output))
                    == spec_finish(av, i as int, verbose as int, opt_view(directory), opt_view(output)));
            }
        }
        if n - i < 2 {
            return Err("not enough arguments");
        }
        let webfilename = args[i].clone();
        let first_ch = i + 1;
        let mut chfilenames: Vec<String> = Vec::new();
        let mut k = first_ch;
        while k < n
            invariant
                first_ch <= k <= n,
                n == args@.len(),
                chfilenames@.len() == k - first_ch,
                forall|j: int|
                    0 <= j < chfilenames@.len() ==> (#[trigger] chfilenames@[j])@ == args@[
                        first_ch + j
                    ]@,
            decreases n - k,
        {
            chfilenames.push(args[k].clone());
            k = k + 1;
        }
        let config = Config { verbose, directory, output, webfilename, chfilenames };
        proof {
            assert(string_views(config.chfilenames@) =~= av.subrange(
                first_ch as int,
                av.len() as int,
            ));
        }
        Ok(config)
    }
}

} // verus!
