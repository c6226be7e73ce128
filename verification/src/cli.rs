//! Reading the command line of `new` and `open`, and naming sessions.
//!
//! Both commands take
//! `<session-name> [--cols N] [--rows N] [--] <command> [args...]`.
//! Options are recognised up to the first `--`; `--cols` and `--rows` each
//! consume the argument that follows them.

use vstd::prelude::*;
use vstd::string::*;

verus! {

/// Columns of a new session's window where the command line names none.
pub const DEFAULT_COLS: u16 = 80;

/// Rows of a new session's window where the command line names none.
pub const DEFAULT_ROWS: u16 = 24;

/// What a list of arguments stands for.
pub open spec fn arg_views(args: Seq<String>) -> Seq<Seq<char>> {
    args.map_values(|s: String| s@)
}

/// Whether `c` is a decimal digit.
pub open spec fn is_digit(c: char) -> bool {
    '0' <= c <= '9'
}

/// Whether `s` holds decimal digits only.
pub open spec fn all_digits(s: Seq<char>) -> bool {
    forall|i: int| 0 <= i < s.len() ==> is_digit(#[trigger] s[i])
}

/// The number that the decimal digits `s` write.
pub open spec fn decimal_value(s: Seq<char>) -> nat
    decreases s.len(),
{
    if s.len() == 0 {
        0
    } else {
        decimal_value(s.drop_last()) * 10 + (s.last() as u32 - '0' as u32) as nat
    }
}

/// The `u16` that `text` writes: an optional `+`, then one or more decimal
/// digits whose value fits. Anything else writes none.
pub open spec fn u16_text_value(text: Seq<char>) -> Option<u16> {
    let digits = if text.len() > 0 && text[0] == '+' {
        text.skip(1)
    } else {
        text
    };
    if digits.len() > 0 && all_digits(digits) && decimal_value(digits) <= u16::MAX {
        Some(decimal_value(digits) as u16)
    } else {
        None
    }
}

/// The digits of a longer number write no smaller a number.
proof fn lemma_decimal_value_grows(s: Seq<char>, n: int)
    requires
        0 <= n <= s.len(),
    ensures
        decimal_value(s.take(n)) <= decimal_value(s),
    decreases s.len() - n,
{
    if n < s.len() {
        lemma_decimal_value_grows(s, n + 1);
        assert(s.take(n + 1).drop_last() =~= s.take(n));
    } else {
        assert(s.take(n) =~= s);
    }
}

/// Reads a `u16` in decimal notation.
pub fn parse_u16(text: &str) -> (value: Option<u16>)
    ensures
        value == u16_text_value(text@),
{
    broadcast use is_ascii_spec_bytes;

    if !text.is_ascii() {
        proof {
            let k = choose|k: int|
                0 <= k < text@.len() && !('\0' <= #[trigger] text@[k] <= '\u{7f}');
            if text@.len() > 0 && text@[0] == '+' {
                assert(!is_digit(text@.skip(1)[k - 1]));
            } else {
                assert(!is_digit(text@[k]));
            }
        }
        return None;
    }
    let bytes = text.as_bytes();
    let n: usize = bytes.len();
    proof {
        assert(bytes@ =~= Seq::new(text@.len(), |k: int| text@[k] as u8));
        assert forall|k: int| 0 <= k < n implies #[trigger] bytes@[k] as int == text@[k] as int by {
            assert('\0' <= text@[k] <= '\u{7f}');
        }
    }
    let start: usize = if n > 0 && bytes[0] == 0x2b {
        1
    } else {
        0
    };
    let ghost digits = text@.skip(start as int);
    assert(digits == (if text@.len() > 0 && text@[0] == '+' {
        text@.skip(1)
    } else {
        text@
    })) by {
        assert(text@.skip(0) =~= text@);
        if n > 0 {
            assert(bytes@[0] as int == text@[0] as int);
        }
    }
    if start == n {
        return None;
    }
    let mut value: u32 = 0;
    let mut i: usize = start;
    proof {
        assert(digits.take(0) =~= Seq::<char>::empty());
    }
    while i < n
        invariant
            start <= i <= n,
            n == bytes@.len(),
            n == text@.len(),
            forall|k: int| 0 <= k < n ==> #[trigger] bytes@[k] as int == text@[k] as int,
            digits == text@.skip(start as int),
            digits == (if text@.len() > 0 && text@[0] == '+' {
                text@.skip(1)
            } else {
                text@
            }),
            all_digits(digits.take(i - start)),
            value == decimal_value(digits.take(i - start)),
            value <= u16::MAX,
        decreases n - i,
    {
        let b: u8 = bytes[i];
        let ghost upto = digits.take(i - start + 1);
        proof {
            assert(bytes@[i as int] as int == text@[i as int] as int);
            assert(digits[i - start] == text@[i as int]);
            assert(upto.drop_last() =~= digits.take(i - start));
            assert(upto.last() == digits[i - start]);
        }
        if b < 0x30 || b > 0x39 {
            assert(!is_digit(digits[i - start]));
            return None;
        }
        assert(is_digit(digits[i - start]));
        assert forall|k: int| 0 <= k < upto.len() implies is_digit(#[trigger] upto[k]) by {
            if k < i - start {
                assert(digits.take(i - start)[k] == upto[k]);
            }
        }
        value = value * 10 + (b - 0x30) as u32;
        assert(value == decimal_value(upto));
        if value > 0xffff {
            proof {
                lemma_decimal_value_grows(digits, i - start + 1);
            }
            return None;
        }
        i = i + 1;
    }
    proof {
        assert(digits.take(n - start) =~= digits);
    }
    Some(value as u16)
}

/// The session name among `args` from index `i` on: the first argument that
/// is no option. `options` tells whether options are still recognised.
pub open spec fn session_name_from(args: Seq<Seq<char>>, i: int, options: bool) -> Option<
    Seq<char>,
>
    decreases args.len() + 1 - i,
{
    if i < 0 || i >= args.len() {
        None
    } else if options && args[i] == "--"@ {
        session_name_from(args, i + 1, false)
    } else if options && (args[i] == "--cols"@ || args[i] == "--rows"@) {
        session_name_from(args, i + 2, true)
    } else {
        Some(args[i])
    }
}

/// Finds the session name on a command line, if it holds one.
pub fn parse_session_name(args: &[String]) -> (name: Option<&str>)
    ensures
        match name {
            Some(s) => session_name_from(arg_views(args@), 0, true) == Some(s@),
            None => session_name_from(arg_views(args@), 0, true) is None,
        },
{
    let ghost views = arg_views(args@);
    let end_of_options = String::from_str("--");
    let cols_flag = String::from_str("--cols");
    let rows_flag = String::from_str("--rows");
    let n: usize = args.len();
    let mut options: bool = true;
    let mut i: usize = 0;
    while i < n
        invariant
            0 <= i,
            n == args@.len(),
            views == arg_views(args@),
            end_of_options@ == "--"@,
            cols_flag@ == "--cols"@,
            rows_flag@ == "--rows"@,
            session_name_from(views, 0, true) == session_name_from(views, i as int, options),
        decreases n - i,
    {
        assert(views[i as int] == args@[i as int]@);
        if options && args[i] == end_of_options {
            options = false;
            i = i + 1;
        } else if options && (args[i] == cols_flag || args[i] == rows_flag) {
            if n - i < 2 {
                assert(session_name_from(views, i + 2, true) is None);
                return None;
            }
            i = i + 2;
        } else {
            return Some(args[i].as_str());
        }
    }
    None
}

/// What the command line of `new` asks for.
pub struct NewArgs {
    /// The session's name; empty where the command line holds none.
    pub session_name: String,
    pub cols: u16,
    pub rows: u16,
    /// The command to run and its arguments; empty where the command line
    /// holds none.
    pub cmd_args: Vec<String>,
}

/// What a [`NewArgs`] stands for.
pub struct NewArgsView {
    pub session_name: Seq<char>,
    pub cols: u16,
    pub rows: u16,
    pub cmd_args: Seq<Seq<char>>,
}

impl View for NewArgs {
    type V = NewArgsView;

    open spec fn view(&self) -> NewArgsView {
        NewArgsView {
            session_name: self.session_name@,
            cols: self.cols,
            rows: self.rows,
            cmd_args: arg_views(self.cmd_args@),
        }
    }
}

/// The size that the argument at `i` writes, or `default` where there is no
/// such argument or it writes no `u16`.
pub open spec fn size_at(args: Seq<Seq<char>>, i: int, default: u16) -> u16 {
    if 0 <= i < args.len() {
        match u16_text_value(args[i]) {
            Some(v) => v,
            None => default,
        }
    } else {
        default
    }
}

/// What `args` from index `i` on add to `so_far`. The first argument that is
/// no option names the session, as long as no name is known; the later ones
/// make up the command. A size that cannot be read falls back to its default.
pub open spec fn new_args_from(args: Seq<Seq<char>>, i: int, options: bool, so_far: NewArgsView)
    -> NewArgsView
    decreases args.len() + 1 - i,
{
    if i < 0 || i >= args.len() {
        so_far
    } else if options && args[i] == "--"@ {
        new_args_from(args, i + 1, false, so_far)
    } else if options && args[i] == "--cols"@ {
        new_args_from(
            args,
            i + 2,
            true,
            NewArgsView { cols: size_at(args, i + 1, DEFAULT_COLS), ..so_far },
        )
    } else if options && args[i] == "--rows"@ {
        new_args_from(
            args,
            i + 2,
            true,
            NewArgsView { rows: size_at(args, i + 1, DEFAULT_ROWS), ..so_far },
        )
    } else if so_far.session_name.len() == 0 {
        new_args_from(args, i + 1, options, NewArgsView { session_name: args[i], ..so_far })
    } else {
        new_args_from(
            args,
            i + 1,
            options,
            NewArgsView { cmd_args: so_far.cmd_args.push(args[i]), ..so_far },
        )
    }
}

/// What a command line of `new` asks for.
pub open spec fn new_args(args: Seq<Seq<char>>) -> NewArgsView {
    new_args_from(
        args,
        0,
        true,
        NewArgsView {
            session_name: Seq::empty(),
            cols: DEFAULT_COLS,
            rows: DEFAULT_ROWS,
            cmd_args: Seq::empty(),
        },
    )
}

/// Reads the size that follows a size option.
fn size_after(args: &[String], i: usize, default: u16) -> (size: u16)
    requires
        i < args@.len(),
    ensures
        size == size_at(arg_views(args@), i + 1, default),
{
    if args.len() - i < 2 {
        return default;
    }
    assert(arg_views(args@)[i + 1] == args@[i + 1]@);
    match parse_u16(args[i + 1].as_str()) {
        Some(v) => v,
        None => default,
    }
}

/// Reads the command line of `new`.
pub fn parse_new_args(args: &[String]) -> (parsed: NewArgs)
    ensures
        parsed@ == new_args(arg_views(args@)),
{
    let ghost views = arg_views(args@);
    let end_of_options = String::from_str("--");
    let cols_flag = String::from_str("--cols");
    let rows_flag = String::from_str("--rows");
    let n: usize = args.len();
    let mut parsed = NewArgs {
        session_name: String::new(),
        cols: DEFAULT_COLS,
        rows: DEFAULT_ROWS,
        cmd_args: Vec::new(),
    };
    let mut options: bool = true;
    let mut i: usize = 0;
    assert(parsed@.cmd_args =~= Seq::<Seq<char>>::empty());
    while i < n
        invariant
            0 <= i,
            n == args@.len(),
            views == arg_views(args@),
            end_of_options@ == "--"@,
            cols_flag@ == "--cols"@,
            rows_flag@ == "--rows"@,
            new_args(views) == new_args_from(views, i as int, options, parsed@),
        decreases n - i,
    {
        assert(views[i as int] == args@[i as int]@);
        if options && args[i] == end_of_options {
            options = false;
            i = i + 1;
        } else if options && args[i] == cols_flag {
            parsed.cols = size_after(args, i, DEFAULT_COLS);
            assert(new_args_from(views, i + 2, true, parsed@) == new_args_from(
                views,
                if n - i < 2 {
                    n as int
                } else {
                    i + 2
                },
                true,
                parsed@,
            ));
            i = if n - i < 2 {
                n
            } else {
                i + 2
            };
        } else if options && args[i] == rows_flag {
            parsed.rows = size_after(args, i, DEFAULT_ROWS);
            assert(new_args_from(views, i + 2, true, parsed@) == new_args_from(
                views,
                if n - i < 2 {
                    n as int
                } else {
                    i + 2
                },
                true,
                parsed@,
            ));
            i = if n - i < 2 {
                n
            } else {
                i + 2
            };
        } else if parsed.session_name.as_str().is_empty() {
            parsed.session_name = args[i].clone();
            i = i + 1;
        } else {
            let ghost before = parsed@.cmd_args;
            parsed.cmd_args.push(args[i].clone());
            assert(parsed@.cmd_args =~= before.push(views[i as int]));
            i = i + 1;
        }
    }
    parsed
}

/// The name of the session in the directory `name` below the session
/// `prefix`: `prefix/name`, or `name` itself at the top of the tree.
pub open spec fn child_name(prefix: Seq<char>, name: Seq<char>) -> Seq<char> {
    if prefix.len() == 0 {
        name
    } else {
        prefix + "/"@ + name
    }
}

/// Names the session that lives in the directory `name` below the session
/// `prefix`. Session names mirror the directory tree, with `/` between the
/// levels.
pub fn child_session_name(prefix: &str, name: &str) -> (full: String)
    ensures
        full@ == child_name(prefix@, name@),
{
    if prefix.is_empty() {
        String::from_str(name)
    } else {
        let mut full = String::from_str(prefix);
        full.append("/");
        full.append(name);
        full
    }
}

/// A directory met while the session tree is listed.
pub struct ListedDir {
    /// The name of the session that lives there, if one does.
    pub full_name: String,
    /// Whether a session lives there: the directory holds a socket.
    pub is_session: bool,
}

/// What the listing makes of an entry `name` in the directory of session
/// `prefix`. A directory is reported under its session name and is searched
/// in turn; it counts as a session where it holds a socket. Anything else is
/// passed over, and so is whatever is named like the socket file itself.
pub fn list_entry(prefix: &str, name: &str, is_dir: bool, has_socket: bool) -> (listed: Option<
    ListedDir,
>)
    ensures
        listed is Some <==> is_dir && name@ != "socket"@,
        listed matches Some(dir) ==> dir.full_name@ == child_name(prefix@, name@)
            && dir.is_session == has_socket,
{
    let socket_file = String::from_str("socket");
    let entry = String::from_str(name);
    if entry == socket_file || !is_dir {
        None
    } else {
        Some(ListedDir { full_name: child_session_name(prefix, name), is_session: has_socket })
    }
}

/// The command that a new session runs: the one that the command line names,
/// else the user's shell, else `/bin/sh`.
pub fn command_or_shell(cmd_args: Vec<String>, shell: Option<String>) -> (command: Vec<String>)
    ensures
        arg_views(command@) == (if cmd_args@.len() > 0 {
            arg_views(cmd_args@)
        } else {
            match shell {
                Some(s) => seq![s@],
                None => seq!["/bin/sh"@],
            }
        }),
{
    if cmd_args.len() > 0 {
        return cmd_args;
    }
    let mut command: Vec<String> = Vec::new();
    let first = match shell {
        Some(s) => s,
        None => String::from_str("/bin/sh"),
    };
    command.push(first);
    assert(arg_views(command@) =~= seq![first@]);
    command
}

} // verus!
