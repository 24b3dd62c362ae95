//! Command-line arguments of the viewer.

use vstd::prelude::*;

use crate::text::{parse_u32, parse_u32_spec, str_eq};

verus! {

/// The viewer's command-line options.
pub struct Args {
    /// Run the mock injector on top of the ROS node.
    pub mock: bool,
    pub ref_frame: String,
    /// Configuration file path.
    pub config: Option<String>,
    /// URDF file path; wins over the configuration file's `[urdf] path`.
    pub urdf: Option<String>,
    pub width: u32,
    pub height: u32,
}

/// The options as the contracts see them.
pub struct ArgsModel {
    pub mock: bool,
    pub ref_frame: Seq<char>,
    pub config: Option<Seq<char>>,
    pub urdf: Option<Seq<char>>,
    pub width: u32,
    pub height: u32,
}

impl Args {
    pub open spec fn model(&self) -> ArgsModel {
        ArgsModel {
            mock: self.mock,
            ref_frame: self.ref_frame@,
            config: match self.config {
                Some(c) => Some(c@),
                None => None,
            },
            urdf: match self.urdf {
                Some(u) => Some(u@),
                None => None,
            },
            width: self.width,
            height: self.height,
        }
    }
}

pub open spec fn default_args() -> ArgsModel {
    ArgsModel { mock: false, ref_frame: "map"@, config: None, urdf: None, width: 1280, height: 800 }
}

impl Default for Args {
    fn default() -> (r: Self)
        ensures
            r.model() == default_args(),
    {
        Args { mock: false, ref_frame: "map".to_owned(), config: None, urdf: None, width: 1280, height: 800 }
    }
}

/// What the command line asks for.
pub enum CliOutcome {
    /// Start the viewer with these options.
    Run(Args),
    /// Print the usage text and exit successfully.
    Help,
    /// A flag that needs a value came last (`--ref-frame`, `--config` or `--urdf`).
    MissingValue(String),
    /// An argument that is not an option.
    Unknown(String),
}

/// The outcome as the contracts see it.
pub enum CliModel {
    Run(ArgsModel),
    Help,
    MissingValue(Seq<char>),
    Unknown(Seq<char>),
}

impl CliOutcome {
    pub open spec fn model(&self) -> CliModel {
        match self {
            CliOutcome::Run(a) => CliModel::Run(a.model()),
            CliOutcome::Help => CliModel::Help,
            CliOutcome::MissingValue(f) => CliModel::MissingValue(f@),
            CliOutcome::Unknown(a) => CliModel::Unknown(a@),
        }
    }
}

/// Parsing `argv[i..]` on top of the options `a`. `--width` and `--height`
/// take the next argument when there is one, keeping the old value when it
/// is not a number.
pub open spec fn parse_from(argv: Seq<Seq<char>>, i: int, a: ArgsModel) -> CliModel
    decreases argv.len() - i,
{
    if i < 0 || i >= argv.len() {
        CliModel::Run(a)
    } else {
        let arg = argv[i];
        let has_next = i + 1 < argv.len();
        if arg == "--mock"@ {
            parse_from(argv, i + 1, ArgsModel { mock: true, ..a })
        } else if arg == "--no-mock"@ {
            parse_from(argv, i + 1, ArgsModel { mock: false, ..a })
        } else if arg == "--ref-frame"@ {
            if has_next {
                parse_from(argv, i + 2, ArgsModel { ref_frame: argv[i + 1], ..a })
            } else {
                CliModel::MissingValue(arg)
            }
        } else if arg == "--config"@ {
            if has_next {
                parse_from(argv, i + 2, ArgsModel { config: Some(argv[i + 1]), ..a })
            } else {
                CliModel::MissingValue(arg)
            }
        } else if arg == "--urdf"@ {
            if has_next {
                parse_from(argv, i + 2, ArgsModel { urdf: Some(argv[i + 1]), ..a })
            } else {
                CliModel::MissingValue(arg)
            }
        } else if arg == "--width"@ {
            if has_next {
                let w = match parse_u32_spec(argv[i + 1]) {
                    Some(v) => v,
                    None => a.width,
                };
                parse_from(argv, i + 2, ArgsModel { width: w, ..a })
            } else {
                CliModel::Run(a)
            }
        } else if arg == "--height"@ {
            if has_next {
                let h = match parse_u32_spec(argv[i + 1]) {
                    Some(v) => v,
                    None => a.height,
                };
                parse_from(argv, i + 2, ArgsModel { height: h, ..a })
            } else {
                CliModel::Run(a)
            }
        } else if arg == "--help"@ || arg == "-h"@ {
            CliModel::Help
        } else {
            CliModel::Unknown(arg)
        }
    }
}

pub open spec fn arg_views(v: Seq<String>) -> Seq<Seq<char>> {
    v.map_values(|s: String| s@)
}

/// Parse the arguments that follow the program name.
pub fn parse_args(argv: &Vec<String>) -> (r: CliOutcome)
    ensures
        r.model() == parse_from(arg_views(argv@), 0, default_args()),
{
    let ghost av = arg_views(argv@);
    let mut args = Args::default();
    let n = argv.len();
    let mut i: usize = 0;
    while i < n
        invariant
            n == argv@.len(),
            av == arg_views(argv@),
            i <= n + 1,
            parse_from(av, 0, default_args()) == parse_from(av, i as int, args.model()),
        decreases n + 1 - i,
    {
        let arg = argv[i].as_str();
        let has_next = i + 1 < n;
        proof {
            assert(av[i as int] == arg@);
            if has_next {
                assert(av[i + 1] == argv@[i + 1]@);
            }
        }
        if str_eq(arg, "--mock") {
            args.mock = true;
            i = i + 1;
        } else if str_eq(arg, "--no-mock") {
            args.mock = false;
            i = i + 1;
        } else if str_eq(arg, "--ref-frame") {
            if has_next {
                args.ref_frame = argv[i + 1].clone();
                i = i + 2;
            } else {
                return CliOutcome::MissingValue(argv[i].clone());
            }
        } else if str_eq(arg, "--config") {
            if has_next {
                args.config = Some(argv[i + 1].clone());
                i = i + 2;
            } else {
                return CliOutcome::MissingValue(argv[i].clone());
            }
        } else if str_eq(arg, "--urdf") {
            if has_next {
                args.urdf = Some(argv[i + 1].clone());
                i = i + 2;
            } else {
                return CliOutcome::MissingValue(argv[i].clone());
            }
        } else if str_eq(arg, "--width") {
            if has_next {
                match parse_u32(argv[i + 1].as_str()) {
                    Some(v) => {
                        args.width = v;
                    },
                    None => {},
                }
                i = i + 2;
            } else {
                return CliOutcome::Run(args);
            }
        } else if str_eq(arg, "--height") {
            if has_next {
                match parse_u32(argv[i + 1].as_str()) {
                    Some(v) => {
                        args.height = v;
                    },
                    None => {},
                }
                i = i + 2;
            } else {
                return CliOutcome::Run(args);
            }
        } else if str_eq(arg, "--help") || str_eq(arg, "-h") {
            return CliOutcome::Help;
        } else {
            return CliOutcome::Unknown(argv[i].clone());
        }
    }
    CliOutcome::Run(args)
}

/// The usage text.
pub const HELP_TEXT: &'static str = "fastviz \u{2014} ROS2 visualizer\n\nUsage:\n  app [--mock] [--ref-frame FRAME] [--config PATH] [--urdf PATH] [--width N] [--height N]\n\nThe ROS2 node always starts (this is a ROS2 visualizer). --mock layers the\nM0 mock injector on top for testing the rendering pipeline.\n\nControls:\n\tLeft drag    orbit\n\tRight drag   pan\n\tScroll       zoom\n\tF            reset view\n\tT            top-down view\n\tS            side view\n\tEsc          quit\n";

} // verus!
