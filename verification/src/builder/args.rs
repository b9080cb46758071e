//! The command line of `r-boot-conf-builder`.

use vstd::prelude::*;
use crate::text::{concat, int_error_message, int_error_text, owned, parse_u32, parse_u32_str, text_is};
use crate::cli::args::args_view;

verus! {

/// The parsed command line.
#[derive(Debug)]
pub struct Args {
    /// r-boot menu timeout, in seconds.
    pub timeout: u32,
    /// Path to the default (current) system configuration.
    pub default: String,
    /// EFI system partition mount point.
    pub esp: String,
    /// r-boot EFI binary to install.
    pub binary: String,
    /// Number of older generations to include in the menu.
    pub num_generations: u32,
    /// Whether to register a boot entry via efibootmgr.
    pub touch_efi_vars: bool,
}

pub struct ArgsView {
    pub timeout: u32,
    pub default: Seq<char>,
    pub esp: Seq<char>,
    pub binary: Seq<char>,
    pub num_generations: u32,
    pub touch_efi_vars: bool,
}

impl View for Args {
    type V = ArgsView;

    open spec fn view(&self) -> ArgsView {
        ArgsView {
            timeout: self.timeout,
            default: self.default@,
            esp: self.esp@,
            binary: self.binary@,
            num_generations: self.num_generations,
            touch_efi_vars: self.touch_efi_vars,
        }
    }
}

/// The options seen so far.
pub struct Seen {
    pub timeout: Option<u32>,
    pub default: Option<Seq<char>>,
    pub esp: Option<Seq<char>>,
    pub binary: Option<Seq<char>>,
    pub num_generations: u32,
    pub touch_efi_vars: bool,
}

/// The options before any argument.
pub open spec fn nothing_seen() -> Seen {
    Seen {
        timeout: None,
        default: None,
        esp: None,
        binary: None,
        num_generations: 0,
        touch_efi_vars: false,
    }
}

/// The required options, checked in order once the arguments are read.
pub open spec fn finish(s: Seen) -> Result<ArgsView, Seq<char>> {
    match (s.timeout, s.default, s.esp, s.binary) {
        (None, _, _, _) => Err("-t <timeout> is required"@),
        (Some(_), None, _, _) => Err("-c <path-to-default-configuration> is required"@),
        (Some(_), Some(_), None, _) => Err("-d <esp-mount-point> is required"@),
        (Some(_), Some(_), Some(_), None) => Err("-b <r-boot-efi> is required"@),
        (Some(t), Some(c), Some(d), Some(b)) => Ok(
            ArgsView {
                timeout: t,
                default: c,
                esp: d,
                binary: b,
                num_generations: s.num_generations,
                touch_efi_vars: s.touch_efi_vars,
            },
        ),
    }
}

/// The command line read from argument `i` on. Every option but `-e` takes
/// the next argument as its value; a number that does not parse reports the
/// parse error.
pub open spec fn parse_from(a: Seq<Seq<char>>, i: int, s: Seen) -> Result<ArgsView, Seq<char>>
    decreases a.len() - i,
{
    if i < 0 || i >= a.len() {
        finish(s)
    } else {
        let arg = a[i];
        if arg == "-e"@ {
            parse_from(a, i + 1, Seen { touch_efi_vars: true, ..s })
        } else if !(arg == "-t"@ || arg == "-c"@ || arg == "-d"@ || arg == "-b"@ || arg == "-g"@) {
            Err("unrecognized argument: "@ + arg)
        } else if i + 1 >= a.len() {
            Err(arg + ": missing argument"@)
        } else {
            let value = a[i + 1];
            if arg == "-t"@ {
                match parse_u32(value) {
                    Ok(n) => parse_from(a, i + 2, Seen { timeout: Some(n), ..s }),
                    Err(k) => Err(int_error_text(k)),
                }
            } else if arg == "-g"@ {
                match parse_u32(value) {
                    Ok(n) => parse_from(a, i + 2, Seen { num_generations: n, ..s }),
                    Err(k) => Err(int_error_text(k)),
                }
            } else if arg == "-c"@ {
                parse_from(a, i + 2, Seen { default: Some(value), ..s })
            } else if arg == "-d"@ {
                parse_from(a, i + 2, Seen { esp: Some(value), ..s })
            } else {
                parse_from(a, i + 2, Seen { binary: Some(value), ..s })
            }
        }
    }
}

/// The command line `a`, without the program name.
pub open spec fn parse_args(a: Seq<Seq<char>>) -> Result<ArgsView, Seq<char>> {
    parse_from(a, 0, nothing_seen())
}

/// The model of a parse result.
pub open spec fn result_view(r: Result<Args, String>) -> Result<ArgsView, Seq<char>> {
    match r {
        Ok(a) => Ok(a@),
        Err(e) => Err(e@),
    }
}

/// The text of an optional string.
pub open spec fn opt_text(o: Option<String>) -> Option<Seq<char>> {
    match o {
        Some(s) => Some(s@),
        None => None,
    }
}

impl Args {
    /// Parses the arguments after the program name.
    pub fn parse(args: Vec<String>) -> (r: Result<Args, String>)
        ensures
            result_view(r) == parse_args(args_view(args@)),
    {
        let ghost a = args_view(args@);
        let mut timeout: Option<u32> = None;
        let mut default: Option<String> = None;
        let mut esp: Option<String> = None;
        let mut binary: Option<String> = None;
        let mut num_generations: u32 = 0;
        let mut touch_efi_vars = false;
        let mut i: usize = 0;
        while i < args.len()
            invariant
                i <= args@.len(),
                a == args_view(args@),
                a.len() == args@.len(),
                parse_args(a) == parse_from(
                    a,
                    i as int,
                    Seen {
                        timeout,
                        default: opt_text(default),
                        esp: opt_text(esp),
                        binary: opt_text(binary),
                        num_generations,
                        touch_efi_vars,
                    },
                ),
            decreases args@.len() - i,
        {
            let arg = args[i].as_str();
            proof {
                assert(a[i as int] == arg@);
                if i + 1 < args.len() {
                    assert(a[i + 1] == args@[i + 1]@);
                }
            }
            if text_is(arg, "-e") {
                touch_efi_vars = true;
                i += 1;
            } else if !(text_is(arg, "-t") || text_is(arg, "-c") || text_is(arg, "-d") || text_is(
                arg,
                "-g",
            ) || text_is(arg, "-b")) {
                return Err(concat("unrecognized argument: ", arg));
            } else if i + 1 >= args.len() {
                return Err(concat(arg, ": missing argument"));
            } else {
                let value = args[i + 1].as_str();
                if text_is(arg, "-t") {
                    match parse_u32_str(value) {
                        Ok(n) => {
                            timeout = Some(n);
                        },
                        Err(k) => {
                            return Err(owned(int_error_message(k)));
                        },
                    }
                } else if text_is(arg, "-g") {
                    match parse_u32_str(value) {
                        Ok(n) => {
                            num_generations = n;
                        },
                        Err(k) => {
                            return Err(owned(int_error_message(k)));
                        },
                    }
                } else if text_is(arg, "-c") {
                    default = Some(owned(value));
                } else if text_is(arg, "-d") {
                    esp = Some(owned(value));
                } else {
                    binary = Some(owned(value));
                }
                i += 2;
            }
        }
        let timeout = match timeout {
            Some(t) => t,
            None => {
                return Err(owned("-t <timeout> is required"));
            },
        };
        let default = match default {
            Some(d) => d,
            None => {
                return Err(owned("-c <path-to-default-configuration> is required"));
            },
        };
        let esp = match esp {
            Some(d) => d,
            None => {
                return Err(owned("-d <esp-mount-point> is required"));
            },
        };
        let binary = match binary {
            Some(b) => b,
            None => {
                return Err(owned("-b <r-boot-efi> is required"));
            },
        };
        Ok(Args { timeout, default, esp, binary, num_generations, touch_efi_vars })
    }
}

} // verus!
