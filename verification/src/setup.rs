//! Installing the managed shell configuration into `~/.zshrc`: the command
//! line's sub-commands, where the files go, and the managed block that is
//! added to (or removed from) the user's `.zshrc`.
use vstd::prelude::*;
use crate::history::{path_join, split_text_lines, text_lines, vviews};
use crate::text::{
    chars_contain, chars_equal, chars_of, contains_seq, opt_text, push_char, push_str, string_of,
    trim, trim_end, trim_end_len, trimmed_chars,
};

verus! {

broadcast use vstd::string::group_string_axioms;

/// First line of the managed block.
pub const MANAGED_BLOCK_START: &'static str = "# >>> _cmd managed shell >>>";

/// Last line of the managed block.
pub const MANAGED_BLOCK_END: &'static str = "# <<< _cmd managed shell <<<";

/// What the program was asked to do.
#[derive(Debug, Clone, Copy, PartialEq, Eq, Structural)]
pub enum SetupCommand {
    LaunchUi,
    SetupShell,
    ResetShell,
    PrintShellInit,
}

/// Where the managed configuration and `.zshrc` live, and their state.
pub struct ShellSetupStatus {
    pub managed_path: String,
    pub zshrc_path: String,
    pub managed_file_exists: bool,
    pub zshrc_patched: bool,
}

/// Why the shell setup cannot be done.
#[derive(Debug, Clone, Copy, PartialEq, Eq, Structural)]
pub enum SetupError {
    /// Neither `VIEW_CONFIG_HOME` nor `HOME` tells where the configuration goes.
    MissingHome,
}

/// The sub-command named by the first argument after the program's name.
pub open spec fn command_of(args: Seq<Seq<char>>) -> SetupCommand {
    if args.len() < 2 {
        SetupCommand::LaunchUi
    } else if args[1] == "setup-shell"@ {
        SetupCommand::SetupShell
    } else if args[1] == "reset-shell"@ {
        SetupCommand::ResetShell
    } else if args[1] == "print-shell-init"@ {
        SetupCommand::PrintShellInit
    } else {
        SetupCommand::LaunchUi
    }
}

fn string_is(s: &String, lit: &str) -> (b: bool)
    ensures
        b == (s@ == lit@),
{
    chars_equal(&chars_of(s.as_str()), &chars_of(lit))
}

/// Reads the sub-command from the program's arguments (see `command_of`).
pub fn parse_command(args: &[String]) -> (c: SetupCommand)
    ensures
        c == command_of(crate::text::views(args@)),
{
    if args.len() < 2 {
        return SetupCommand::LaunchUi;
    }
    let a = &args[1];
    if string_is(a, "setup-shell") {
        SetupCommand::SetupShell
    } else if string_is(a, "reset-shell") {
        SetupCommand::ResetShell
    } else if string_is(a, "print-shell-init") {
        SetupCommand::PrintShellInit
    } else {
        SetupCommand::LaunchUi
    }
}

/// Where the managed configuration goes: under `VIEW_CONFIG_HOME` when it is
/// set, else under `HOME`; `None` without either.
pub open spec fn managed_zsh_location(config_home: Option<Seq<char>>, home: Option<Seq<char>>) -> Option<
    Seq<char>,
> {
    match config_home {
        Some(root) => Some(path_join(root, "zsh/_cmd.zsh"@)),
        None => match home {
            Some(h) => Some(path_join(h, ".config/_cmd/zsh/_cmd.zsh"@)),
            None => None,
        },
    }
}

fn joined(base: &str, rel: &str) -> (r: String)
    ensures
        r@ == path_join(base@, rel@),
{
    string_of(&crate::history::join_path(&chars_of(base), &chars_of(rel)))
}

/// Where the managed configuration goes (see `managed_zsh_location`), given
/// the values of `VIEW_CONFIG_HOME` and `HOME`.
pub fn managed_zsh_path(config_home: Option<&str>, home: Option<&str>) -> (r: Option<String>)
    ensures
        opt_text(r) == managed_zsh_location(
            crate::history::opt_str_text(config_home),
            crate::history::opt_str_text(home),
        ),
{
    match config_home {
        Some(root) => Some(joined(root, "zsh/_cmd.zsh")),
        None => match home {
            Some(h) => Some(joined(h, ".config/_cmd/zsh/_cmd.zsh")),
            None => None,
        },
    }
}

/// Where the user's `.zshrc` is, given the value of `HOME`.
pub fn user_zshrc_path(home: Option<&str>) -> (r: Option<String>)
    ensures
        opt_text(r) == match crate::history::opt_str_text(home) {
            Some(h) => Some(path_join(h, ".zshrc"@)),
            None => None::<Seq<char>>,
        },
{
    match home {
        Some(h) => Some(joined(h, ".zshrc")),
        None => None,
    }
}

/// `s` with each `'` written as `'\''`, for use inside single quotes in a shell.
pub open spec fn quote_escaped(s: Seq<char>) -> Seq<char>
    decreases s.len(),
{
    if s.len() == 0 {
        s
    } else if s.last() == '\'' {
        quote_escaped(s.drop_last()) + seq!['\'', '\\', '\'', '\'']
    } else {
        quote_escaped(s.drop_last()).push(s.last())
    }
}

/// The managed block: the start marker, a line sourcing `managed_path`, the
/// end marker, each followed by a newline.
pub open spec fn managed_block_text(managed_path: Seq<char>) -> Seq<char> {
    MANAGED_BLOCK_START@ + "\nsource '"@ + quote_escaped(managed_path) + "'\n"@ + MANAGED_BLOCK_END@
        + "\n"@
}

fn push_quote_escaped(out: &mut String, s: &str)
    ensures
        final(out)@ == old(out)@ + quote_escaped(s@),
{
    let chars = chars_of(s);
    let mut i: usize = 0;
    while i < chars.len()
        invariant
            chars@ == s@,
            i <= chars@.len(),
            out@ == old(out)@ + quote_escaped(s@.subrange(0, i as int)),
        decreases chars@.len() - i,
    {
        let ghost pre = s@.subrange(0, i as int);
        let ghost next = s@.subrange(0, i + 1);
        assert(next.drop_last() =~= pre);
        assert(next.last() == chars@[i as int]);
        if chars[i] == '\'' {
            push_str(out, "'\\''");
            proof {
                reveal_strlit("'\\''");
            }
            assert(out@ =~= old(out)@ + quote_escaped(next));
        } else {
            push_char(out, chars[i]);
            assert(out@ =~= old(out)@ + quote_escaped(next));
        }
        i += 1;
    }
    assert(s@.subrange(0, s@.len() as int) =~= s@);
}

/// The managed block for `managed_path` (see `managed_block_text`).
pub fn managed_block(managed_path: &str) -> (r: String)
    ensures
        r@ == managed_block_text(managed_path@),
{
    let mut r = String::new();
    push_str(&mut r, MANAGED_BLOCK_START);
    push_str(&mut r, "\nsource '");
    push_quote_escaped(&mut r, managed_path);
    push_str(&mut r, "'\n");
    push_str(&mut r, MANAGED_BLOCK_END);
    push_str(&mut r, "\n");
    assert(r@ =~= managed_block_text(managed_path@));
    r
}

/// The shell code `print-shell-init` shows: the managed block for the
/// managed configuration's location.
pub fn preview_shell_init(managed_path: Option<&str>) -> (r: Result<String, SetupError>)
    ensures
        managed_path is None <==> r is Err,
        r matches Err(e) ==> e == SetupError::MissingHome,
        r matches Ok(s) ==> s@ == managed_block_text(managed_path->0@),
{
    match managed_path {
        Some(p) => Ok(managed_block(p)),
        None => Err(SetupError::MissingHome),
    }
}

/// A `.zshrc` holds both markers of the managed block.
pub open spec fn has_managed_block(content: Seq<char>) -> bool {
    contains_seq(content, MANAGED_BLOCK_START@) && contains_seq(content, MANAGED_BLOCK_END@)
}

/// Whether a `.zshrc` holds both markers of the managed block.
pub fn zshrc_has_managed_block(content: &str) -> (b: bool)
    ensures
        b == has_managed_block(content@),
{
    let c = chars_of(content);
    chars_contain(&c, &chars_of(MANAGED_BLOCK_START)) && chars_contain(
        &c,
        &chars_of(MANAGED_BLOCK_END),
    )
}

/// The state of the shell setup, from the paths, whether the managed file
/// exists and the `.zshrc` text.
pub fn shell_setup_status(
    managed_path: String,
    zshrc_path: String,
    managed_file_exists: bool,
    zshrc_content: &str,
) -> (st: ShellSetupStatus)
    ensures
        st.managed_path@ == managed_path@,
        st.zshrc_path@ == zshrc_path@,
        st.managed_file_exists == managed_file_exists,
        st.zshrc_patched == has_managed_block(zshrc_content@),
{
    ShellSetupStatus {
        managed_file_exists,
        zshrc_patched: zshrc_has_managed_block(zshrc_content),
        managed_path,
        zshrc_path,
    }
}

// ---------------------------------------------------------------------------
// Removing and adding the managed block
// ---------------------------------------------------------------------------

/// The lines of `ls` outside managed blocks, each followed by a newline: a
/// start marker line begins skipping, an end marker line stops it, and the
/// marker lines themselves go.
pub open spec fn kept_lines(ls: Seq<Seq<char>>, skipping: bool) -> Seq<char>
    decreases ls.len(),
{
    if ls.len() == 0 {
        Seq::empty()
    } else {
        let l = ls[0];
        if trim(l) == MANAGED_BLOCK_START@ {
            kept_lines(ls.drop_first(), true)
        } else if trim(l) == MANAGED_BLOCK_END@ {
            kept_lines(ls.drop_first(), false)
        } else if skipping {
            kept_lines(ls.drop_first(), true)
        } else {
            l + seq!['\n'] + kept_lines(ls.drop_first(), false)
        }
    }
}

/// `s[i..]` with every run of newlines cut to at most two, when `run`
/// newlines were just written.
pub open spec fn capped_newlines(s: Seq<char>, i: int, run: int) -> Seq<char>
    decreases s.len() - i,
{
    if i < 0 || i >= s.len() {
        Seq::empty()
    } else if s[i] == '\n' {
        if run >= 2 {
            capped_newlines(s, i + 1, run)
        } else {
            seq!['\n'] + capped_newlines(s, i + 1, run + 1)
        }
    } else {
        seq![s[i]] + capped_newlines(s, i + 1, 0)
    }
}

/// `s` without its trailing newlines.
pub open spec fn without_trailing_newlines(s: Seq<char>) -> Seq<char>
    decreases s.len(),
{
    if s.len() > 0 && s.last() == '\n' {
        without_trailing_newlines(s.drop_last())
    } else {
        s
    }
}

/// A `.zshrc` without its managed block: the other lines, with no more than
/// one blank line in a row, ending in exactly one newline.
pub open spec fn without_managed_block(original: Seq<char>) -> Seq<char> {
    without_trailing_newlines(capped_newlines(kept_lines(text_lines(original), false), 0, 0))
        + seq!['\n']
}

fn line_is(line: &Vec<char>, lit: &str) -> (b: bool)
    ensures
        b == (trim(line@) == lit@),
{
    let (a, z) = crate::text::trim_bounds(line);
    let t = crate::text::slice_vec(line, a, z);
    chars_equal(&t, &chars_of(lit))
}

fn cap_newlines(s: &Vec<char>) -> (r: Vec<char>)
    ensures
        r@ == capped_newlines(s@, 0, 0),
{
    let mut out: Vec<char> = Vec::new();
    let mut run: usize = 0;
    let mut i: usize = 0;
    assert(out@ + capped_newlines(s@, 0, 0) =~= capped_newlines(s@, 0, 0));
    while i < s.len()
        invariant
            i <= s@.len(),
            run <= 2,
            capped_newlines(s@, 0, 0) == out@ + capped_newlines(s@, i as int, run as int),
        decreases s@.len() - i,
    {
        let ghost before = out@;
        if s[i] == '\n' {
            if run < 2 {
                out.push('\n');
                assert(before + (seq!['\n'] + capped_newlines(s@, i + 1, run + 1)) =~= out@
                    + capped_newlines(s@, i + 1, run + 1));
                run += 1;
            }
        } else {
            out.push(s[i]);
            assert(before + (seq![s@[i as int]] + capped_newlines(s@, i + 1, 0)) =~= out@
                + capped_newlines(s@, i + 1, 0));
            run = 0;
        }
        i += 1;
    }
    assert(out@ + Seq::<char>::empty() =~= out@);
    out
}

fn strip_trailing_newlines(s: &Vec<char>) -> (r: Vec<char>)
    ensures
        r@ == without_trailing_newlines(s@),
{
    let mut n = s.len();
    assert(s@.subrange(0, n as int) =~= s@);
    while n > 0 && s[n - 1] == '\n'
        invariant
            n <= s@.len(),
            without_trailing_newlines(s@) == without_trailing_newlines(s@.subrange(0, n as int)),
        decreases n,
    {
        let ghost t = s@.subrange(0, n as int);
        assert(t.drop_last() =~= s@.subrange(0, n - 1));
        n -= 1;
    }
    proof {
        let t = s@.subrange(0, n as int);
        if n > 0 {
            assert(t.last() == s@[n - 1]);
        }
    }
    crate::text::slice_vec(s, 0, n)
}

/// Removes the managed block from a `.zshrc` (see `without_managed_block`).
pub fn remove_managed_zshrc_block(original: &str) -> (r: String)
    ensures
        r@ == without_managed_block(original@),
{
    let lines = split_text_lines(original);
    let ghost ls = vviews(lines@);
    let mut kept: Vec<char> = Vec::new();
    let mut skipping = false;
    let mut i: usize = 0;
    assert(ls.subrange(0, ls.len() as int) =~= ls);
    assert(kept@ + kept_lines(ls, false) =~= kept_lines(ls, false));
    while i < lines.len()
        invariant
            i <= lines@.len(),
            ls == vviews(lines@),
            kept_lines(ls, false) == kept@ + kept_lines(ls.subrange(i as int, ls.len() as int), skipping),
        decreases lines@.len() - i,
    {
        let ghost rest = ls.subrange(i as int, ls.len() as int);
        assert(rest[0] == lines@[i as int]@);
        assert(rest.drop_first() =~= ls.subrange(i + 1, ls.len() as int));
        let line = &lines[i];
        if line_is(line, MANAGED_BLOCK_START) {
            skipping = true;
        } else if line_is(line, MANAGED_BLOCK_END) {
            skipping = false;
        } else if !skipping {
            let ghost before = kept@;
            crate::history::append_chars(&mut kept, line);
            kept.push('\n');
            assert(before + (line@ + seq!['\n'] + kept_lines(
                ls.subrange(i + 1, ls.len() as int),
                false,
            )) =~= kept@ + kept_lines(ls.subrange(i + 1, ls.len() as int), false));
        }
        i += 1;
    }
    assert(kept@ + Seq::<char>::empty() =~= kept@);
    let capped = cap_newlines(&kept);
    let mut stripped = strip_trailing_newlines(&capped);
    stripped.push('\n');
    string_of(&stripped)
}

/// A `.zshrc` with the managed block for `managed_path` installed: any old
/// block removed, trailing whitespace dropped, a blank line, then the block.
pub open spec fn with_managed_block(original: Seq<char>, managed_path: Seq<char>) -> Seq<char> {
    let base = trim_end(without_managed_block(original));
    (if base.len() == 0 {
        base
    } else {
        base + "\n\n"@
    }) + managed_block_text(managed_path)
}

/// Installs the managed block in a `.zshrc` (see `with_managed_block`).
pub fn apply_managed_zshrc_block(original: &str, managed_path: &str) -> (r: String)
    ensures
        r@ == with_managed_block(original@, managed_path@),
{
    let cleaned = remove_managed_zshrc_block(original);
    let chars = chars_of(cleaned.as_str());
    let n = trim_end_len(&chars);
    let base = crate::text::slice_vec(&chars, 0, n);
    let mut output = string_of(&base);
    if n > 0 {
        push_str(&mut output, "\n\n");
    }
    let block = managed_block(managed_path);
    push_str(&mut output, block.as_str());
    output
}

} // verus!
