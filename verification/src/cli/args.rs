//! The command line of `r-boot-cli`.

use vstd::prelude::*;
use crate::text::{
    concat, int_error_message, int_error_text, owned, parse_u32, parse_u32_str, text_is,
};

verus! {

/// What `r-boot-cli` is asked to do.
#[derive(Debug)]
pub enum Command {
    /// Print the current default entry, timeout, and menu entries.
    Show,
    /// Change the default boot entry.
    SetDefault(String),
    /// Change the menu timeout, in seconds.
    SetTimeout(u32),
    /// Change spinner output to off, text, or graphical.
    SetSpinner(String),
    /// Show or hide the firmware logo while using the graphical spinner.
    SetLogo(bool),
    /// Remove a boot entry, optionally deleting its kernel/initramfs files.
    Remove { id: String, purge: bool },
}

/// The parsed command line.
#[derive(Debug)]
pub struct Args {
    /// EFI system partition mount point (`-d`, `/boot` by default).
    pub esp: String,
    pub command: Command,
}

pub enum CommandView {
    Show,
    SetDefault(Seq<char>),
    SetTimeout(u32),
    SetSpinner(Seq<char>),
    SetLogo(bool),
    Remove { id: Seq<char>, purge: bool },
}

pub struct ArgsView {
    pub esp: Seq<char>,
    pub command: CommandView,
}

impl View for Command {
    type V = CommandView;

    open spec fn view(&self) -> CommandView {
        match self {
            Command::Show => CommandView::Show,
            Command::SetDefault(id) => CommandView::SetDefault(id@),
            Command::SetTimeout(s) => CommandView::SetTimeout(*s),
            Command::SetSpinner(m) => CommandView::SetSpinner(m@),
            Command::SetLogo(b) => CommandView::SetLogo(*b),
            Command::Remove { id, purge } => CommandView::Remove { id: id@, purge: *purge },
        }
    }
}

impl View for Args {
    type V = ArgsView;

    open spec fn view(&self) -> ArgsView {
        ArgsView { esp: self.esp@, command: self.command@ }
    }
}

/// The texts of the arguments.
pub open spec fn args_view(a: Seq<String>) -> Seq<Seq<char>> {
    a.map_values(|s: String| s@)
}

/// The command line read from argument `i` on, with the mount point and
/// command seen so far; a later command replaces an earlier one.
pub open spec fn parse_from(
    a: Seq<Seq<char>>,
    i: int,
    esp: Seq<char>,
    cmd: Option<CommandView>,
) -> Result<ArgsView, Seq<char>>
    decreases a.len() - i,
{
    if i < 0 || i >= a.len() {
        match cmd {
            Some(c) => Ok(ArgsView { esp, command: c }),
            None => Err("a command is required"@),
        }
    } else {
        let arg = a[i];
        let has_next = i + 1 < a.len();
        if arg == "-d"@ {
            if has_next {
                parse_from(a, i + 2, a[i + 1], cmd)
            } else {
                Err("-d: missing argument"@)
            }
        } else if arg == "show"@ {
            parse_from(a, i + 1, esp, Some(CommandView::Show))
        } else if arg == "set-default"@ {
            if has_next {
                parse_from(a, i + 2, esp, Some(CommandView::SetDefault(a[i + 1])))
            } else {
                Err("set-default: missing <id> argument"@)
            }
        } else if arg == "set-timeout"@ {
            if !has_next {
                Err("set-timeout: missing <seconds> argument"@)
            } else {
                match parse_u32(a[i + 1]) {
                    Ok(n) => parse_from(a, i + 2, esp, Some(CommandView::SetTimeout(n))),
                    Err(k) => Err("set-timeout: "@ + int_error_text(k)),
                }
            }
        } else if arg == "set-spinner"@ {
            if !has_next {
                Err("set-spinner: missing <mode> argument"@)
            } else if a[i + 1] == "off"@ || a[i + 1] == "text"@ || a[i + 1] == "graphical"@ {
                parse_from(a, i + 2, esp, Some(CommandView::SetSpinner(a[i + 1])))
            } else {
                Err("set-spinner: mode must be off, text, or graphical"@)
            }
        } else if arg == "set-logo"@ {
            if !has_next {
                Err("set-logo: missing <on|off>"@)
            } else if a[i + 1] == "on"@ {
                parse_from(a, i + 2, esp, Some(CommandView::SetLogo(true)))
            } else if a[i + 1] == "off"@ {
                parse_from(a, i + 2, esp, Some(CommandView::SetLogo(false)))
            } else {
                Err("set-logo: value must be on or off"@)
            }
        } else if arg == "remove"@ {
            if !has_next {
                Err("remove: missing <id> argument"@)
            } else if i + 2 >= a.len() {
                parse_from(a, i + 2, esp, Some(CommandView::Remove { id: a[i + 1], purge: false }))
            } else if a[i + 2] == "--purge"@ {
                parse_from(a, i + 3, esp, Some(CommandView::Remove { id: a[i + 1], purge: true }))
            } else {
                Err("unrecognized argument: "@ + a[i + 2])
            }
        } else {
            Err("unrecognized argument: "@ + arg)
        }
    }
}

/// The command line `a`, without the program name.
pub open spec fn parse_args(a: Seq<Seq<char>>) -> Result<ArgsView, Seq<char>> {
    parse_from(a, 0, "/boot"@, None)
}

/// The model of a parse result.
pub open spec fn result_view(r: Result<Args, String>) -> Result<ArgsView, Seq<char>> {
    match r {
        Ok(a) => Ok(a@),
        Err(e) => Err(e@),
    }
}

/// The model of an optional command.
pub open spec fn opt_command(c: Option<Command>) -> Option<CommandView> {
    match c {
        Some(c) => Some(c@),
        None => None,
    }
}

impl Args {
    /// Parses the arguments after the program name.
    pub fn parse(args: Vec<String>) -> (r: Result<Args, String>)
        ensures
            result_view(r) == parse_args(args_view(args@)),
    {
        let ghost a = args_view(args@);
        let mut esp = owned("/boot");
        let mut command: Option<Command> = None;
        let mut i: usize = 0;
        while i < args.len()
            invariant
                i <= args@.len(),
                a == args_view(args@),
                a.len() == args@.len(),
                parse_args(a) == parse_from(a, i as int, esp@, opt_command(command)),
            decreases args@.len() - i,
        {
            let arg = args[i].as_str();
            let has_next = i + 1 < args.len();
            proof {
                assert(a[i as int] == arg@);
                if has_next {
                    assert(a[i + 1] == args@[i + 1]@);
                }
                if i + 2 < args.len() {
                    assert(a[i + 2] == args@[i + 2]@);
                }
            }
            if text_is(arg, "-d") {
                if !has_next {
                    return Err(owned("-d: missing argument"));
                }
                esp = args[i + 1].clone();
                i += 2;
            } else if text_is(arg, "show") {
                command = Some(Command::Show);
                i += 1;
            } else if text_is(arg, "set-default") {
                if !has_next {
                    return Err(owned("set-default: missing <id> argument"));
                }
                command = Some(Command::SetDefault(args[i + 1].clone()));
                i += 2;
            } else if text_is(arg, "set-timeout") {
                if !has_next {
                    return Err(owned("set-timeout: missing <seconds> argument"));
                }
                match parse_u32_str(args[i + 1].as_str()) {
                    Ok(n) => {
                        command = Some(Command::SetTimeout(n));
                    },
                    Err(k) => {
                        return Err(concat("set-timeout: ", int_error_message(k)));
                    },
                }
                i += 2;
            } else if text_is(arg, "set-spinner") {
                if !has_next {
                    return Err(owned("set-spinner: missing <mode> argument"));
                }
                let mode = args[i + 1].as_str();
                if !(text_is(mode, "off") || text_is(mode, "text") || text_is(mode, "graphical")) {
                    return Err(owned("set-spinner: mode must be off, text, or graphical"));
                }
                command = Some(Command::SetSpinner(args[i + 1].clone()));
                i += 2;
            } else if text_is(arg, "set-logo") {
                if !has_next {
                    return Err(owned("set-logo: missing <on|off>"));
                }
                let value = args[i + 1].as_str();
                let visible = if text_is(value, "on") {
                    true
                } else if text_is(value, "off") {
                    false
                } else {
                    return Err(owned("set-logo: value must be on or off"));
                };
                command = Some(Command::SetLogo(visible));
                i += 2;
            } else if text_is(arg, "remove") {
                if !has_next {
                    return Err(owned("remove: missing <id> argument"));
                }
                let id = args[i + 1].clone();
                if i + 2 >= args.len() {
                    command = Some(Command::Remove { id, purge: false });
                    i += 2;
                } else if text_is(args[i + 2].as_str(), "--purge") {
                    command = Some(Command::Remove { id, purge: true });
                    i += 3;
                } else {
                    return Err(concat("unrecognized argument: ", args[i + 2].as_str()));
                }
            } else {
                return Err(concat("unrecognized argument: ", arg));
            }
        }
        match command {
            Some(command) => Ok(Args { esp, command }),
            None => Err(owned("a command is required")),
        }
    }
}

} // verus!
