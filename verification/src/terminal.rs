//! Shell integration: terminal sizes and commands, the managed zsh
//! configuration, and parsing of what the shell prints (OSC 7 directory
//! reports, OSC 1337 user variables, escape-sequence clean-up).
use vstd::prelude::*;
use vstd::utf8::{decode_utf8, encode_utf8, is_char_boundary, valid_utf8};
use crate::text::{
    bytes_find_from, chars_contain, chars_of, first_occurrence_from, is_control, is_ctrl,
    lemma_ascii_ends_char, push_decimal, push_str, slice_vec, string_of, trim_end, trim_end_len,
    contains_seq, decimal, starts_with, occurs_at, opt_text,
};

verus! {

broadcast use vstd::string::group_string_axioms;

/// Size of a terminal viewport in character cells.
#[derive(Debug, Clone, Copy, PartialEq, Eq, Structural)]
pub struct TerminalSize {
    pub cols: u16,
    pub rows: u16,
}

/// What the application sends to a running shell.
#[derive(Debug, Clone)]
pub enum TerminalCommand {
    /// A line of input, sent followed by a newline.
    Input(String),
    /// A viewport resize, sent as an internal shell command.
    Resize(TerminalSize),
}

impl PartialEq for TerminalCommand {
    fn eq(&self, other: &Self) -> (r: bool) {
        match (self, other) {
            (TerminalCommand::Input(a), TerminalCommand::Input(b)) => *a == *b,
            (TerminalCommand::Resize(a), TerminalCommand::Resize(b)) => *a == *b,
            _ => false,
        }
    }
}

impl vstd::std_specs::cmp::PartialEqSpecImpl for TerminalCommand {
    open spec fn obeys_eq_spec() -> bool {
        true
    }

    open spec fn eq_spec(&self, other: &Self) -> bool {
        match (self, other) {
            (TerminalCommand::Input(a), TerminalCommand::Input(b)) => a@ == b@,
            (TerminalCommand::Resize(a), TerminalCommand::Resize(b)) => a == b,
            _ => false,
        }
    }
}


/// The managed zsh configuration sourced by every shell session: history
/// options, the `_view_emit_user_var` and `_view_apply_winsize` helpers, and the
/// `preexec` / `precmd` hooks that report prompt state, the last command, its
/// exit code (OSC 1337 user variables) and the working directory (OSC 7).
pub const MANAGED_ZSH_SHELL_INTEGRATION: &'static str = r#"
alias cls='clear'
HISTFILE="$HOME/.zsh_history"
HISTSIZE=5000
SAVEHIST=5000
setopt SHARE_HISTORY
setopt APPEND_HISTORY
setopt INC_APPEND_HISTORY
setopt EXTENDED_HISTORY
setopt HIST_IGNORE_ALL_DUPS
setopt HIST_IGNORE_SPACE

_view_emit_user_var() {
  local encoded
  encoded="$(printf '%s' "$2" | base64 | tr -d '\r\n')"
  printf '\e]1337;SetUserVar=%s=b64:%s\a\n' "$1" "$encoded"
}

_view_apply_winsize() {
  stty cols "$1" rows "$2" 2>/dev/null || return 0
  export COLUMNS="$1"
  export LINES="$2"
  kill -WINCH $$ >/dev/null 2>&1 || true
}

preexec() {
  _view_emit_user_var "view_prompt_state" "command_start"
  _view_emit_user_var "view_last_command" "$1"
}

# OSC 7 directory tracking for terminal emulators
precmd() {
  local exit_code=$?
  if [[ -n "${VIEW_SHELL_INTEGRATION:-}" ]]; then
    _view_emit_user_var "view_prompt_state" "prompt_ready"
    _view_emit_user_var "view_last_exit_code" "$exit_code"
  fi
  # Emit OSC 7 escape sequence with path and a newline to ensure reader processes it
  if [[ -n "${VIEW_SHELL_INTEGRATION:-}" ]]; then
    print -Pn "\e]7;file://%m%d\a\n"
  fi
}
"#;

/// The managed zsh configuration text.
pub fn managed_zsh_shell_integration() -> (s: &'static str)
    ensures
        s@ == MANAGED_ZSH_SHELL_INTEGRATION@,
{
    MANAGED_ZSH_SHELL_INTEGRATION
}

/// The `.zshrc` that loads the managed configuration from `managed_config_path`.
pub open spec fn zshrc_text(managed_config_path: Seq<char>) -> Seq<char> {
    "\nif [ -f '"@ + managed_config_path + "' ]; then\n  source '"@ + managed_config_path
        + "'\nfi\n"@
}

/// Builds the `.zshrc` that sources the managed configuration when it exists.
pub fn shell_zshrc_content(managed_config_path: &str) -> (r: String)
    ensures
        r@ == zshrc_text(managed_config_path@),
{
    let mut r = String::new();
    push_str(&mut r, "\nif [ -f '");
    push_str(&mut r, managed_config_path);
    push_str(&mut r, "' ]; then\n  source '");
    push_str(&mut r, managed_config_path);
    push_str(&mut r, "'\nfi\n");
    assert(r@ =~= zshrc_text(managed_config_path@));
    r
}

/// The internal shell command that applies a viewport size.
pub open spec fn resize_command_text(size: TerminalSize) -> Seq<char> {
    " _view_apply_winsize "@ + decimal(size.cols as nat) + " "@ + decimal(size.rows as nat)
}

/// Builds the internal command ` _view_apply_winsize COLS ROWS`.
pub fn shell_resize_command(size: TerminalSize) -> (r: String)
    ensures
        r@ == resize_command_text(size),
{
    let mut r = String::new();
    push_str(&mut r, " _view_apply_winsize ");
    push_decimal(&mut r, size.cols as u64);
    push_str(&mut r, " ");
    push_decimal(&mut r, size.rows as u64);
    assert(r@ =~= resize_command_text(size));
    r
}

// ---------------------------------------------------------------------------
// Cleaning a line of shell output
// ---------------------------------------------------------------------------

/// Index just past a CSI sequence whose parameters start at `i`: past the first
/// final character (`'@'..='~'`), or the end of the line.
pub open spec fn csi_end(s: Seq<char>, i: int) -> int
    decreases s.len() - i,
{
    if i >= s.len() {
        s.len() as int
    } else if '@' <= s[i] && s[i] <= '~' {
        i + 1
    } else {
        csi_end(s, i + 1)
    }
}

/// Index just past an OSC sequence whose payload starts at `i`: past the first
/// terminator, BEL or the string terminator ESC `\\`, or the end of the line.
pub open spec fn osc_end(s: Seq<char>, i: int) -> int
    decreases s.len() - i,
{
    if i >= s.len() {
        s.len() as int
    } else if s[i] == '\u{7}' {
        i + 1
    } else if s[i] == '\u{1b}' && i + 1 < s.len() && s[i + 1] == '\\' {
        i + 2
    } else {
        osc_end(s, i + 1)
    }
}

/// Both sequence ends lie between their start and the end of the line.
pub proof fn lemma_sequence_ends(s: Seq<char>, i: int)
    requires
        0 <= i <= s.len(),
    ensures
        i <= csi_end(s, i) <= s.len(),
        i <= osc_end(s, i) <= s.len(),
    decreases s.len() - i,
{
    if i < s.len() {
        lemma_sequence_ends(s, i + 1);
    }
}

/// Spaces up to the next tab stop (every 8 columns) after `out`.
pub open spec fn tab_fill(out: Seq<char>) -> Seq<char> {
    Seq::new((8 - out.len() % 8) as nat, |k: int| ' ')
}

/// What a terminal shows after interpreting `s[i..]` when `out` is already shown:
/// backspace erases, CSI and OSC escape sequences vanish, carriage return
/// restarts the line, tabs go to the next stop, other control characters vanish.
pub open spec fn render_from(s: Seq<char>, i: int, out: Seq<char>) -> Seq<char>
    decreases s.len() - i,
{
    if i < 0 || i >= s.len() {
        out
    } else {
        let c = s[i];
        if c == '\u{8}' {
            render_from(s, i + 1, if out.len() > 0 { out.drop_last() } else { out })
        } else if c == '\u{1b}' {
            if i + 1 < s.len() && s[i + 1] == '[' {
                proof {
                    lemma_sequence_ends(s, i + 2);
                }
                render_from(s, csi_end(s, i + 2), out)
            } else if i + 1 < s.len() && s[i + 1] == ']' {
                proof {
                    lemma_sequence_ends(s, i + 2);
                }
                render_from(s, osc_end(s, i + 2), out)
            } else {
                render_from(s, i + 1, out)
            }
        } else if c == '\r' {
            render_from(s, i + 1, Seq::empty())
        } else if c == '\t' {
            render_from(s, i + 1, out + tab_fill(out))
        } else if is_ctrl(c) {
            render_from(s, i + 1, out)
        } else {
            render_from(s, i + 1, out.push(c))
        }
    }
}

/// The cleaned form of a line of shell output: what the terminal would show,
/// without trailing whitespace; empty for echoes of the internal resize command.
pub open spec fn sanitized(s: Seq<char>) -> Seq<char> {
    let t = trim_end(render_from(s, 0, Seq::empty()));
    if contains_seq(t, "_view_apply_winsize "@) {
        Seq::empty()
    } else {
        t
    }
}

/// No control character in `s`.
pub open spec fn free_of_controls(s: Seq<char>) -> bool {
    forall|k: int| 0 <= k < s.len() ==> !is_ctrl(#[trigger] s[k])
}

/// What the terminal shows holds no control character.
proof fn lemma_render_free(s: Seq<char>, i: int, out: Seq<char>)
    requires
        free_of_controls(out),
    ensures
        free_of_controls(render_from(s, i, out)),
    decreases s.len() - i,
{
    if 0 <= i < s.len() {
        let c = s[i];
        if c == '\u{8}' {
            let o2 = if out.len() > 0 { out.drop_last() } else { out };
            assert forall|k: int| 0 <= k < o2.len() implies !is_ctrl(#[trigger] o2[k]) by {
                assert(o2[k] == out[k]);
            }
            lemma_render_free(s, i + 1, o2);
        } else if c == '\u{1b}' {
            if i + 1 < s.len() && s[i + 1] == '[' {
                lemma_sequence_ends(s, i + 2);
                lemma_render_free(s, csi_end(s, i + 2), out);
            } else if i + 1 < s.len() && s[i + 1] == ']' {
                lemma_sequence_ends(s, i + 2);
                lemma_render_free(s, osc_end(s, i + 2), out);
            } else {
                lemma_render_free(s, i + 1, out);
            }
        } else if c == '\r' {
            lemma_render_free(s, i + 1, Seq::empty());
        } else if c == '\t' {
            let o2 = out + tab_fill(out);
            assert forall|k: int| 0 <= k < o2.len() implies !is_ctrl(#[trigger] o2[k]) by {
                if k >= out.len() {
                    assert(o2[k] == ' ');
                }
            }
            lemma_render_free(s, i + 1, o2);
        } else if is_ctrl(c) {
            lemma_render_free(s, i + 1, out);
        } else {
            let o2 = out.push(c);
            assert forall|k: int| 0 <= k < o2.len() implies !is_ctrl(#[trigger] o2[k]) by {
                if k < out.len() {
                    assert(o2[k] == out[k]);
                }
            }
            lemma_render_free(s, i + 1, o2);
        }
    }
}

/// A line without control characters shows as it is.
proof fn lemma_render_plain(t: Seq<char>, i: int, out: Seq<char>)
    requires
        free_of_controls(t),
        0 <= i <= t.len(),
    ensures
        render_from(t, i, out) == out + t.subrange(i, t.len() as int),
    decreases t.len() - i,
{
    if i < t.len() {
        let c = t[i];
        assert(!is_ctrl(c));
        assert(c != '\u{8}' && c != '\u{1b}' && c != '\r' && c != '\t');
        lemma_render_plain(t, i + 1, out.push(c));
        assert(out.push(c) + t.subrange(i + 1, t.len() as int) =~= out + t.subrange(i, t.len() as int));
    } else {
        assert(out + t.subrange(i, t.len() as int) =~= out);
    }
}

/// Cleaning a line leaves no control character and no trailing whitespace,
/// never shows the internal resize command, and cleaning it again changes
/// nothing.
pub proof fn law_sanitize_is_idempotent(s: Seq<char>)
    ensures
        free_of_controls(sanitized(s)),
        trim_end(sanitized(s)) == sanitized(s),
        !contains_seq(sanitized(s), "_view_apply_winsize "@),
        sanitized(sanitized(s)) == sanitized(s),
{
    let rendered = render_from(s, 0, Seq::empty());
    lemma_render_free(s, 0, Seq::empty());
    let t = trim_end(rendered);
    crate::managed_block_law::lemma_trim_end_facts(rendered);
    assert forall|k: int| 0 <= k < t.len() implies !is_ctrl(#[trigger] t[k]) by {
        assert(t[k] == rendered[k]);
    }
    let r = sanitized(s);
    reveal_strlit("_view_apply_winsize ");
    if r.len() == 0 {
        assert(r =~= Seq::<char>::empty());
        assert(render_from(r, 0, Seq::empty()) == Seq::<char>::empty());
        assert(!contains_seq(r, "_view_apply_winsize "@)) by {
            if contains_seq(r, "_view_apply_winsize "@) {
                let i = choose|i: int| occurs_at(r, "_view_apply_winsize "@, i);
                assert(occurs_at(r, "_view_apply_winsize "@, i));
            }
        }
    } else {
        assert(r == t);
        assert(t.len() > 0 ==> !crate::text::is_ws(t.last()));
        assert(trim_end(t) == t);
        lemma_render_plain(t, 0, Seq::empty());
        assert(Seq::<char>::empty() + t.subrange(0, t.len() as int) =~= t);
    }
}

/// Plain characters from `i` to `n` are shown as they are.
proof fn lemma_render_plain_range(t: Seq<char>, i: int, n: int, out: Seq<char>)
    requires
        0 <= i <= n <= t.len(),
        forall|k: int| i <= k < n ==> !is_ctrl(#[trigger] t[k]),
    ensures
        render_from(t, i, out) == render_from(t, n, out + t.subrange(i, n)),
    decreases n - i,
{
    if i < n {
        let c = t[i];
        assert(!is_ctrl(c));
        assert(c != '\u{8}' && c != '\u{1b}' && c != '\r' && c != '\t');
        lemma_render_plain_range(t, i + 1, n, out.push(c));
        assert(out.push(c) + t.subrange(i + 1, n) =~= out + t.subrange(i, n));
    } else {
        assert(out + t.subrange(i, n) =~= out);
    }
}

/// A CSI sequence ends just past its first final character.
proof fn lemma_csi_skip(t: Seq<char>, i: int, n: int)
    requires
        0 <= i <= n < t.len(),
        forall|k: int| i <= k < n ==> !('@' <= #[trigger] t[k] && t[k] <= '~'),
        '@' <= t[n] && t[n] <= '~',
    ensures
        csi_end(t, i) == n + 1,
    decreases n - i,
{
    if i < n {
        lemma_csi_skip(t, i + 1, n);
    }
}

/// An OSC sequence whose payload holds neither BEL nor ESC ends just past
/// the terminator that follows the payload.
proof fn lemma_osc_skip(t: Seq<char>, i: int, n: int)
    requires
        0 <= i <= n < t.len(),
        forall|k: int| i <= k < n ==> #[trigger] t[k] != '\u{7}' && t[k] != '\u{1b}',
    ensures
        t[n] == '\u{7}' ==> osc_end(t, i) == n + 1,
        t[n] == '\u{1b}' && n + 1 < t.len() && t[n + 1] == '\\' ==> osc_end(t, i) == n + 2,
    decreases n - i,
{
    if i < n {
        lemma_osc_skip(t, i + 1, n);
    }
}

/// Text of plain characters is shown as it is, trailing whitespace dropped
/// (unless it echoes the internal resize command).
pub proof fn law_plain_text_is_kept(s: Seq<char>)
    requires
        free_of_controls(s),
        !contains_seq(trim_end(s), "_view_apply_winsize "@),
    ensures
        sanitized(s) == trim_end(s),
{
    lemma_render_plain(s, 0, Seq::empty());
    assert(Seq::<char>::empty() + s.subrange(0, s.len() as int) =~= s);
}

/// Backspace erases the character shown before it: a plain character
/// followed by a backspace leaves the line as it was.
pub proof fn law_backspace_erases(s: Seq<char>, x: char)
    requires
        free_of_controls(s),
        !is_ctrl(x),
    ensures
        sanitized(s.push(x).push('\u{8}')) == sanitized(s),
{
    let a = s.push(x).push('\u{8}');
    let n = s.len() as int;
    assert forall|k: int| 0 <= k < n + 1 implies !is_ctrl(#[trigger] a[k]) by {
        if k < n {
            assert(a[k] == s[k]);
        }
    }
    lemma_render_plain_range(a, 0, n + 1, Seq::empty());
    assert(Seq::<char>::empty() + a.subrange(0, n + 1) =~= s.push(x));
    assert(a[n + 1] == '\u{8}');
    assert(s.push(x).drop_last() =~= s);
    assert(render_from(a, n + 1, s.push(x)) == render_from(a, n + 2, s.push(x).drop_last()));
    assert(render_from(a, n + 2, s) == s);
    lemma_render_plain(s, 0, Seq::empty());
    assert(Seq::<char>::empty() + s.subrange(0, n) =~= s);
    assert(render_from(a, 0, Seq::empty()) == render_from(s, 0, Seq::empty()));
}

/// A carriage return starts the line over: only what follows it is shown.
pub proof fn law_carriage_return_restarts(s: Seq<char>, t: Seq<char>)
    requires
        free_of_controls(s),
        free_of_controls(t),
    ensures
        sanitized(s + seq!['\r'] + t) == sanitized(t),
{
    let a = s + seq!['\r'] + t;
    let n = s.len() as int;
    assert forall|k: int| 0 <= k < n implies !is_ctrl(#[trigger] a[k]) by {
        assert(a[k] == s[k]);
    }
    lemma_render_plain_range(a, 0, n, Seq::empty());
    assert(a[n] == '\r');
    assert forall|k: int| n + 1 <= k < a.len() implies !is_ctrl(#[trigger] a[k]) by {
        assert(a[k] == t[k - n - 1]);
    }
    lemma_render_plain_range(a, n + 1, a.len() as int, Seq::empty());
    assert(Seq::<char>::empty() + a.subrange(n + 1, a.len() as int) =~= t);
    lemma_render_plain(t, 0, Seq::empty());
    assert(Seq::<char>::empty() + t.subrange(0, t.len() as int) =~= t);
}

/// A tab is shown as spaces up to the next multiple of eight columns.
pub proof fn law_tab_fills_to_next_stop(s: Seq<char>, t: Seq<char>)
    requires
        free_of_controls(s),
        free_of_controls(t),
    ensures
        sanitized(s + seq!['\t'] + t) == sanitized(
            s + Seq::new((8 - s.len() % 8) as nat, |k: int| ' ') + t,
        ),
{
    let a = s + seq!['\t'] + t;
    let sp = Seq::new((8 - s.len() % 8) as nat, |k: int| ' ');
    let b = s + sp + t;
    let n = s.len() as int;
    assert forall|k: int| 0 <= k < n implies !is_ctrl(#[trigger] a[k]) by {
        assert(a[k] == s[k]);
    }
    lemma_render_plain_range(a, 0, n, Seq::empty());
    assert(Seq::<char>::empty() + a.subrange(0, n) =~= s);
    assert(a[n] == '\t');
    assert(tab_fill(s) == sp);
    assert forall|k: int| n + 1 <= k < a.len() implies !is_ctrl(#[trigger] a[k]) by {
        assert(a[k] == t[k - n - 1]);
    }
    lemma_render_plain_range(a, n + 1, a.len() as int, s + sp);
    assert(s + sp + a.subrange(n + 1, a.len() as int) =~= b);
    assert forall|k: int| 0 <= k < b.len() implies !is_ctrl(#[trigger] b[k]) by {
        if k < n {
            assert(b[k] == s[k]);
        } else if k < n + sp.len() {
            assert(b[k] == ' ');
        } else {
            assert(b[k] == t[k - n - sp.len()]);
        }
    }
    lemma_render_plain(b, 0, Seq::empty());
    assert(Seq::<char>::empty() + b.subrange(0, b.len() as int) =~= b);
}

/// A CSI escape sequence (ESC `[`, parameters, a final character in
/// `@`..`~`) is not shown.
pub proof fn law_csi_sequence_vanishes(s: Seq<char>, params: Seq<char>, fin: char, t: Seq<char>)
    requires
        free_of_controls(s),
        free_of_controls(t),
        forall|k: int| 0 <= k < params.len() ==> !('@' <= #[trigger] params[k] && params[k] <= '~'),
        '@' <= fin && fin <= '~',
    ensures
        sanitized(s + seq!['\u{1b}', '['] + params + seq![fin] + t) == sanitized(s + t),
{
    let a = s + seq!['\u{1b}', '['] + params + seq![fin] + t;
    let n = s.len() as int;
    let e = n + 2 + params.len();
    assert forall|k: int| 0 <= k < n implies !is_ctrl(#[trigger] a[k]) by {
        assert(a[k] == s[k]);
    }
    lemma_render_plain_range(a, 0, n, Seq::empty());
    assert(Seq::<char>::empty() + a.subrange(0, n) =~= s);
    assert(a[n] == '\u{1b}' && a[n + 1] == '[');
    assert forall|k: int| n + 2 <= k < e implies !('@' <= #[trigger] a[k] && a[k] <= '~') by {
        assert(a[k] == params[k - n - 2]);
    }
    assert(a[e] == fin);
    lemma_csi_skip(a, n + 2, e);
    lemma_sequence_ends(a, n + 2);
    assert forall|k: int| e + 1 <= k < a.len() implies !is_ctrl(#[trigger] a[k]) by {
        assert(a[k] == t[k - e - 1]);
    }
    lemma_render_plain_range(a, e + 1, a.len() as int, s);
    assert(s + a.subrange(e + 1, a.len() as int) =~= s + t);
    let b = s + t;
    assert forall|k: int| 0 <= k < b.len() implies !is_ctrl(#[trigger] b[k]) by {
        if k < n {
            assert(b[k] == s[k]);
        } else {
            assert(b[k] == t[k - n]);
        }
    }
    lemma_render_plain(b, 0, Seq::empty());
    assert(Seq::<char>::empty() + b.subrange(0, b.len() as int) =~= b);
}

/// An OSC escape sequence (ESC `]`, a payload, then BEL or ESC `\`) is not
/// shown.
pub proof fn law_osc_sequence_vanishes(s: Seq<char>, payload: Seq<char>, bel_ended: bool, t: Seq<char>)
    requires
        free_of_controls(s),
        free_of_controls(t),
        forall|k: int| 0 <= k < payload.len() ==> #[trigger] payload[k] != '\u{7}' && payload[k] != '\u{1b}',
    ensures
        sanitized(
            s + seq!['\u{1b}', ']'] + payload + (if bel_ended {
                seq!['\u{7}']
            } else {
                seq!['\u{1b}', '\\']
            }) + t,
        ) == sanitized(s + t),
{
    let term = if bel_ended { seq!['\u{7}'] } else { seq!['\u{1b}', '\\'] };
    let a = s + seq!['\u{1b}', ']'] + payload + term + t;
    let n = s.len() as int;
    let e = n + 2 + payload.len();
    let after = e + term.len();
    assert forall|k: int| 0 <= k < n implies !is_ctrl(#[trigger] a[k]) by {
        assert(a[k] == s[k]);
    }
    lemma_render_plain_range(a, 0, n, Seq::empty());
    assert(Seq::<char>::empty() + a.subrange(0, n) =~= s);
    assert(a[n] == '\u{1b}' && a[n + 1] == ']');
    assert forall|k: int| n + 2 <= k < e implies #[trigger] a[k] != '\u{7}' && a[k] != '\u{1b}' by {
        assert(a[k] == payload[k - n - 2]);
    }
    assert(a[e] == term[0]);
    if !bel_ended {
        assert(a[e + 1] == term[1]);
    }
    lemma_osc_skip(a, n + 2, e);
    lemma_sequence_ends(a, n + 2);
    assert(osc_end(a, n + 2) == after);
    assert forall|k: int| after <= k < a.len() implies !is_ctrl(#[trigger] a[k]) by {
        assert(a[k] == t[k - after]);
    }
    lemma_render_plain_range(a, after, a.len() as int, s);
    assert(s + a.subrange(after, a.len() as int) =~= s + t);
    let b = s + t;
    assert forall|k: int| 0 <= k < b.len() implies !is_ctrl(#[trigger] b[k]) by {
        if k < n {
            assert(b[k] == s[k]);
        } else {
            assert(b[k] == t[k - n]);
        }
    }
    lemma_render_plain(b, 0, Seq::empty());
    assert(Seq::<char>::empty() + b.subrange(0, b.len() as int) =~= b);
}

/// Shows `s`, then `mid` from `a[n..]`, then the plain rest: the result of
/// rendering `a` when `mid` ends at `e` and leaves `shown` on the line.
proof fn lemma_render_around(a: Seq<char>, s: Seq<char>, t: Seq<char>, e: int, shown: Seq<char>)
    requires
        free_of_controls(s),
        free_of_controls(t),
        a.subrange(0, s.len() as int) == s,
        0 <= s.len() <= e <= a.len(),
        a.subrange(e, a.len() as int) == t,
        render_from(a, s.len() as int, s) == render_from(a, e, shown),
    ensures
        render_from(a, 0, Seq::empty()) == shown + t,
{
    let n = s.len() as int;
    assert forall|k: int| 0 <= k < n implies !is_ctrl(#[trigger] a[k]) by {
        assert(a[k] == a.subrange(0, n)[k]);
    }
    lemma_render_plain_range(a, 0, n, Seq::empty());
    assert(Seq::<char>::empty() + a.subrange(0, n) =~= s);
    assert forall|k: int| e <= k < a.len() implies !is_ctrl(#[trigger] a[k]) by {
        assert(a[k] == t[k - e]);
    }
    lemma_render_plain_range(a, e, a.len() as int, shown);
}

/// Plain text renders as itself.
proof fn lemma_render_plain_text(b: Seq<char>)
    requires
        free_of_controls(b),
    ensures
        render_from(b, 0, Seq::empty()) == b,
{
    lemma_render_plain(b, 0, Seq::empty());
    assert(Seq::<char>::empty() + b.subrange(0, b.len() as int) =~= b);
}

/// Control characters other than backspace, escape, carriage return and tab
/// are not shown.
pub proof fn law_other_controls_vanish(s: Seq<char>, c: char, t: Seq<char>)
    requires
        free_of_controls(s),
        free_of_controls(t),
        is_ctrl(c),
        c != '\u{8}' && c != '\u{1b}' && c != '\r' && c != '\t',
    ensures
        sanitized(s + seq![c] + t) == sanitized(s + t),
{
    let a = s + seq![c] + t;
    let n = s.len() as int;
    assert(a.subrange(0, n) =~= s);
    assert(a.subrange(n + 1, a.len() as int) =~= t);
    assert(a[n] == c);
    lemma_render_around(a, s, t, n + 1, s);
    let b = s + t;
    assert forall|k: int| 0 <= k < b.len() implies !is_ctrl(#[trigger] b[k]) by {
        if k < n {
            assert(b[k] == s[k]);
        } else {
            assert(b[k] == t[k - n]);
        }
    }
    lemma_render_plain_text(b);
}

/// An escape that starts neither a CSI nor an OSC sequence is dropped alone:
/// the character after it is shown.
pub proof fn law_lone_escape_is_dropped(s: Seq<char>, x: char, t: Seq<char>)
    requires
        free_of_controls(s),
        free_of_controls(t),
        !is_ctrl(x),
        x != '[' && x != ']',
    ensures
        sanitized(s + seq!['\u{1b}', x] + t) == sanitized(s + seq![x] + t),
{
    let a = s + seq!['\u{1b}', x] + t;
    let n = s.len() as int;
    assert(a.subrange(0, n) =~= s);
    assert(a.subrange(n + 2, a.len() as int) =~= t);
    assert(a[n] == '\u{1b}' && a[n + 1] == x);
    assert(render_from(a, n + 1, s) == render_from(a, n + 2, s.push(x)));
    lemma_render_around(a, s, t, n + 2, s.push(x));
    let b = s + seq![x] + t;
    assert forall|k: int| 0 <= k < b.len() implies !is_ctrl(#[trigger] b[k]) by {
        if k < n {
            assert(b[k] == s[k]);
        } else if k > n {
            assert(b[k] == t[k - n - 1]);
        }
    }
    lemma_render_plain_text(b);
    assert(s.push(x) + t =~= b);
}

/// Cleans a line of shell output for display (see `sanitized`).
pub fn sanitize_terminal_line(line: &str) -> (r: String)
    ensures
        r@ == sanitized(line@),
{
    let chars = chars_of(line);
    let n = chars.len();
    let mut out: Vec<char> = Vec::new();
    let mut index: usize = 0;
    while index < n
        invariant
            chars@ == line@,
            n == chars@.len(),
            index <= n,
            render_from(line@, 0, Seq::empty()) == render_from(line@, index as int, out@),
        decreases n - index,
    {
        let c = chars[index];
        if c == '\u{8}' {
            if out.len() > 0 {
                out.pop();
            }
            index += 1;
        } else if c == '\u{1b}' {
            index += 1;
            if index < n && chars[index] == '[' {
                index += 1;
                let ghost start = index as int;
                proof {
                    lemma_sequence_ends(line@, start);
                }
                let mut done = false;
                while !done && index < n
                    invariant
                        chars@ == line@,
                        n == chars@.len(),
                        start <= index <= n,
                        !done ==> csi_end(line@, start) == csi_end(line@, index as int),
                        done ==> csi_end(line@, start) == index,
                    decreases n - index,
                {
                    let ch = chars[index];
                    index += 1;
                    if '@' <= ch && ch <= '~' {
                        done = true;
                    }
                }
            } else if index < n && chars[index] == ']' {
                index += 1;
                let ghost start = index as int;
                proof {
                    lemma_sequence_ends(line@, start);
                }
                let mut done = false;
                while !done && index < n
                    invariant
                        chars@ == line@,
                        n == chars@.len(),
                        start <= index <= n,
                        !done ==> osc_end(line@, start) == osc_end(line@, index as int),
                        done ==> osc_end(line@, start) == index,
                    decreases n - index,
                {
                    let ch = chars[index];
                    index += 1;
                    if ch == '\u{7}' {
                        done = true;
                    } else if ch == '\u{1b}' && index < n && chars[index] == '\\' {
                        index += 1;
                        done = true;
                    }
                }
            }
        } else if c == '\r' {
            out = Vec::new();
            index += 1;
        } else if c == '\t' {
            let ghost before = out@;
            let spaces = 8 - (out.len() % 8);
            let mut k: usize = 0;
            while k < spaces
                invariant
                    k <= spaces,
                    spaces == 8 - before.len() % 8,
                    out@ == before + Seq::new(k as nat, |m: int| ' '),
                decreases spaces - k,
            {
                out.push(' ');
                k += 1;
                assert(out@ =~= before + Seq::new(k as nat, |m: int| ' '));
            }
            assert(out@ =~= before + tab_fill(before));
            index += 1;
        } else if is_control(c) {
            index += 1;
        } else {
            out.push(c);
            index += 1;
        }
    }
    let m = trim_end_len(&out);
    let cleaned = slice_vec(&out, 0, m);
    let marker = chars_of("_view_apply_winsize ");
    if chars_contain(&cleaned, &marker) {
        String::new()
    } else {
        string_of(&cleaned)
    }
}


// ---------------------------------------------------------------------------
// Base64 (standard alphabet, `=` padding)
// ---------------------------------------------------------------------------

/// Value of a base64 digit of the standard alphabet.
pub open spec fn b64_sextet(c: u8) -> Option<u8> {
    if 65 <= c && c <= 90 {
        Some((c - 65) as u8)
    } else if 97 <= c && c <= 122 {
        Some((c - 71) as u8)
    } else if 48 <= c && c <= 57 {
        Some((c + 4) as u8)
    } else if c == 43 {
        Some(62u8)
    } else if c == 47 {
        Some(63u8)
    } else {
        None
    }
}

/// Value of one position of a 4-byte group: `=` counts as padding with value 0.
pub open spec fn b64_slot(c: u8) -> Option<u8> {
    if c == 61 {
        Some(0u8)
    } else {
        b64_sextet(c)
    }
}

/// Number of `=` bytes in a group.
pub open spec fn b64_padding(c0: u8, c1: u8, c2: u8, c3: u8) -> int {
    (if c0 == 61 { 1int } else { 0 }) + (if c1 == 61 { 1int } else { 0 }) + (if c2 == 61 {
        1int
    } else {
        0
    }) + (if c3 == 61 { 1int } else { 0 })
}

/// Bytes of one 4-byte group: three without padding, two with one `=`, one with more.
pub open spec fn b64_group(c0: u8, c1: u8, c2: u8, c3: u8) -> Option<Seq<u8>> {
    if b64_slot(c0) is None || b64_slot(c1) is None || b64_slot(c2) is None || b64_slot(c3) is None {
        None
    } else {
        let v0 = b64_slot(c0)->0;
        let v1 = b64_slot(c1)->0;
        let v2 = b64_slot(c2)->0;
        let v3 = b64_slot(c3)->0;
        let pad = b64_padding(c0, c1, c2, c3);
        let b0 = (v0 << 2u8) | (v1 >> 4u8);
        let b1 = (v1 << 4u8) | (v2 >> 2u8);
        let b2 = (v2 << 6u8) | v3;
        if pad == 0 {
            Some(seq![b0, b1, b2])
        } else if pad < 2 {
            Some(seq![b0, b1])
        } else {
            Some(seq![b0])
        }
    }
}

/// Bytes of consecutive 4-byte groups (a shorter tail decodes to nothing).
pub open spec fn b64_groups(s: Seq<u8>) -> Option<Seq<u8>>
    decreases s.len(),
{
    if s.len() < 4 {
        Some(Seq::empty())
    } else {
        match b64_group(s[0], s[1], s[2], s[3]) {
            None => None,
            Some(head) => match b64_groups(s.subrange(4, s.len() as int)) {
                None => None,
                Some(tail) => Some(head + tail),
            },
        }
    }
}

/// Base64 decoding: `None` for empty input, a length that is not a multiple of
/// four, or a byte outside the alphabet.
pub open spec fn b64_decode(s: Seq<u8>) -> Option<Seq<u8>> {
    if s.len() == 0 || s.len() % 4 != 0 {
        None
    } else {
        b64_groups(s)
    }
}

/// The base64 character of a 6-bit value (RFC 4648 alphabet).
pub open spec fn b64_char(v: u8) -> u8 {
    if v < 26 {
        (v + 65) as u8
    } else if v < 52 {
        (v + 71) as u8
    } else if v < 62 {
        (v - 4) as u8
    } else if v == 62 {
        43u8
    } else {
        47u8
    }
}

/// The standard base64 text of `b`: each three bytes become four characters,
/// a last one or two bytes become four characters padded with `=`.
pub open spec fn b64_encode(b: Seq<u8>) -> Seq<u8>
    decreases b.len(),
{
    if b.len() == 0 {
        Seq::empty()
    } else if b.len() == 1 {
        let x = b[0];
        seq![b64_char(x >> 2u8), b64_char((x & 3u8) << 4u8), 61u8, 61u8]
    } else if b.len() == 2 {
        let x = b[0];
        let y = b[1];
        seq![b64_char(x >> 2u8), b64_char(((x & 3u8) << 4u8) | (y >> 4u8)), b64_char((y & 15u8) << 2u8), 61u8]
    } else {
        let x = b[0];
        let y = b[1];
        let z = b[2];
        seq![
            b64_char(x >> 2u8),
            b64_char(((x & 3u8) << 4u8) | (y >> 4u8)),
            b64_char(((y & 15u8) << 2u8) | (z >> 6u8)),
            b64_char(z & 63u8),
        ] + b64_encode(b.subrange(3, b.len() as int))
    }
}

proof fn lemma_b64_char(v: u8)
    requires
        v < 64,
    ensures
        b64_slot(b64_char(v)) == Some(v),
        b64_char(v) != 61,
{
}

proof fn lemma_b64_bits(x: u8, y: u8, z: u8)
    ensures
        x >> 2u8 < 64,
        ((x & 3u8) << 4u8) | (y >> 4u8) < 64,
        ((y & 15u8) << 2u8) | (z >> 6u8) < 64,
        z & 63u8 < 64,
        (x & 3u8) << 4u8 < 64,
        (y & 15u8) << 2u8 < 64,
        ((x >> 2u8) << 2u8) | ((((x & 3u8) << 4u8) | (y >> 4u8)) >> 4u8) == x,
        ((((x & 3u8) << 4u8) | (y >> 4u8)) << 4u8) | ((((y & 15u8) << 2u8) | (z >> 6u8)) >> 2u8) == y,
        ((((y & 15u8) << 2u8) | (z >> 6u8)) << 6u8) | (z & 63u8) == z,
        ((x >> 2u8) << 2u8) | (((x & 3u8) << 4u8) >> 4u8) == x,
        ((((x & 3u8) << 4u8) | (y >> 4u8)) << 4u8) | (((y & 15u8) << 2u8) >> 2u8) == y,
{
    assert(x >> 2u8 < 64) by (bit_vector);
    assert(((x & 3u8) << 4u8) | (y >> 4u8) < 64) by (bit_vector);
    assert(((y & 15u8) << 2u8) | (z >> 6u8) < 64) by (bit_vector);
    assert(z & 63u8 < 64) by (bit_vector);
    assert((x & 3u8) << 4u8 < 64) by (bit_vector);
    assert((y & 15u8) << 2u8 < 64) by (bit_vector);
    assert(((x >> 2u8) << 2u8) | ((((x & 3u8) << 4u8) | (y >> 4u8)) >> 4u8) == x) by (bit_vector);
    assert(((((x & 3u8) << 4u8) | (y >> 4u8)) << 4u8) | ((((y & 15u8) << 2u8) | (z >> 6u8)) >> 2u8) == y)
        by (bit_vector);
    assert(((((y & 15u8) << 2u8) | (z >> 6u8)) << 6u8) | (z & 63u8) == z) by (bit_vector);
    assert(((x >> 2u8) << 2u8) | (((x & 3u8) << 4u8) >> 4u8) == x) by (bit_vector);
    assert(((((x & 3u8) << 4u8) | (y >> 4u8)) << 4u8) | (((y & 15u8) << 2u8) >> 2u8) == y) by (bit_vector);
}

proof fn lemma_b64_groups_encode(b: Seq<u8>)
    ensures
        b64_groups(b64_encode(b)) == Some(b),
        b64_encode(b).len() % 4 == 0,
        b.len() > 0 ==> b64_encode(b).len() > 0,
    decreases b.len(),
{
    let e = b64_encode(b);
    if b.len() == 0 {
        assert(b =~= Seq::<u8>::empty());
    } else if b.len() <= 2 {
        let x = b[0];
        let y = if b.len() == 2 { b[1] } else { 0u8 };
        lemma_b64_bits(x, y, 0u8);
        lemma_b64_char(x >> 2u8);
        lemma_b64_char((x & 3u8) << 4u8);
        lemma_b64_char(((x & 3u8) << 4u8) | (y >> 4u8));
        lemma_b64_char((y & 15u8) << 2u8);
        assert(e.subrange(4, e.len() as int) =~= Seq::<u8>::empty());
        assert(b64_groups(e.subrange(4, e.len() as int)) == Some(Seq::<u8>::empty()));
        if b.len() == 1 {
            assert(e == seq![b64_char(x >> 2u8), b64_char((x & 3u8) << 4u8), 61u8, 61u8]);
            assert(b64_padding(e[0], e[1], e[2], e[3]) == 2);
            assert(b64_group(e[0], e[1], e[2], e[3]) == Some(seq![x]));
            assert(seq![x] + Seq::<u8>::empty() =~= b);
        } else {
            assert(e == seq![
                b64_char(x >> 2u8),
                b64_char(((x & 3u8) << 4u8) | (y >> 4u8)),
                b64_char((y & 15u8) << 2u8),
                61u8,
            ]);
            assert(b64_padding(e[0], e[1], e[2], e[3]) == 1);
            assert(b64_group(e[0], e[1], e[2], e[3]) == Some(seq![x, y]));
            assert(seq![x, y] + Seq::<u8>::empty() =~= b);
        }
    } else {
        let x = b[0];
        let y = b[1];
        let z = b[2];
        let rest = b.subrange(3, b.len() as int);
        lemma_b64_groups_encode(rest);
        lemma_b64_bits(x, y, z);
        lemma_b64_char(x >> 2u8);
        lemma_b64_char(((x & 3u8) << 4u8) | (y >> 4u8));
        lemma_b64_char(((y & 15u8) << 2u8) | (z >> 6u8));
        lemma_b64_char(z & 63u8);
        let head = seq![
            b64_char(x >> 2u8),
            b64_char(((x & 3u8) << 4u8) | (y >> 4u8)),
            b64_char(((y & 15u8) << 2u8) | (z >> 6u8)),
            b64_char(z & 63u8),
        ];
        assert(e == head + b64_encode(rest));
        assert(e.subrange(4, e.len() as int) =~= b64_encode(rest));
        assert(e[0] == head[0] && e[1] == head[1] && e[2] == head[2] && e[3] == head[3]);
        assert(b64_padding(e[0], e[1], e[2], e[3]) == 0);
        assert(b64_group(e[0], e[1], e[2], e[3]) == Some(seq![x, y, z]));
        assert(b =~= seq![x, y, z] + rest);
    }
}

/// Decoding the base64 text of a non-empty byte string gives the bytes back.
pub proof fn law_b64_round_trip(b: Seq<u8>)
    requires
        b.len() > 0,
    ensures
        b64_decode(b64_encode(b)) == Some(b),
{
    lemma_b64_groups_encode(b);
}

/// `prefix` followed by the result, when there is one.
pub open spec fn prefixed(prefix: Seq<u8>, r: Option<Seq<u8>>) -> Option<Seq<u8>> {
    match r {
        None => None,
        Some(t) => Some(prefix + t),
    }
}

fn b64_slot_of(c: u8) -> (r: Option<u8>)
    ensures
        r == b64_slot(c),
{
    if c == 61 {
        Some(0)
    } else if 65 <= c && c <= 90 {
        Some(c - 65)
    } else if 97 <= c && c <= 122 {
        Some(c - 71)
    } else if 48 <= c && c <= 57 {
        Some(c + 4)
    } else if c == 43 {
        Some(62)
    } else if c == 47 {
        Some(63)
    } else {
        None
    }
}

/// Decodes base64 text held in `bytes[start..]`.
pub fn decode_base64_bytes(bytes: &[u8], start: usize) -> (r: Option<Vec<u8>>)
    requires
        start <= bytes@.len(),
    ensures
        r matches Some(v) ==> b64_decode(bytes@.subrange(start as int, bytes@.len() as int))
            == Some(v@),
        r is None ==> b64_decode(bytes@.subrange(start as int, bytes@.len() as int)) is None,
{
    let n = bytes.len();
    let ghost s = bytes@.subrange(start as int, n as int);
    if n == start || (n - start) % 4 != 0 {
        return None;
    }
    let mut out: Vec<u8> = Vec::new();
    let mut i = start;
    assert(bytes@.subrange(i as int, n as int) == s);
    assert(out@ + s =~= s);
    while i < n
        invariant
            n == bytes@.len(),
            start <= i <= n,
            (n - i) % 4 == 0,
            s == bytes@.subrange(start as int, n as int),
            b64_groups(s) == prefixed(out@, b64_groups(bytes@.subrange(i as int, n as int))),
        decreases n - i,
    {
        let ghost t = bytes@.subrange(i as int, n as int);
        assert(t.subrange(4, t.len() as int) =~= bytes@.subrange(i + 4, n as int));
        let c0 = bytes[i];
        let c1 = bytes[i + 1];
        let c2 = bytes[i + 2];
        let c3 = bytes[i + 3];
        assert(t[0] == c0 && t[1] == c1 && t[2] == c2 && t[3] == c3);
        let v0 = match b64_slot_of(c0) {
            Some(v) => v,
            None => return None,
        };
        let v1 = match b64_slot_of(c1) {
            Some(v) => v,
            None => return None,
        };
        let v2 = match b64_slot_of(c2) {
            Some(v) => v,
            None => return None,
        };
        let v3 = match b64_slot_of(c3) {
            Some(v) => v,
            None => return None,
        };
        let mut padding: usize = 0;
        if c0 == 61 {
            padding += 1;
        }
        if c1 == 61 {
            padding += 1;
        }
        if c2 == 61 {
            padding += 1;
        }
        if c3 == 61 {
            padding += 1;
        }
        assert(padding == b64_padding(c0, c1, c2, c3));
        let ghost before = out@;
        out.push((v0 << 2) | (v1 >> 4));
        if padding < 2 {
            out.push((v1 << 4) | (v2 >> 2));
        }
        if padding == 0 {
            out.push((v2 << 6) | v3);
        }
        let ghost head = b64_group(c0, c1, c2, c3)->0;
        assert(out@ =~= before + head);
        assert(prefixed(before, b64_groups(t)) == prefixed(out@, b64_groups(bytes@.subrange(i + 4, n as int)))) by {
            match b64_groups(bytes@.subrange(i + 4, n as int)) {
                None => {},
                Some(tail) => {
                    assert(before + (head + tail) =~= out@ + tail);
                },
            }
        }
        i += 4;
    }
    assert(bytes@.subrange(n as int, n as int) =~= Seq::<u8>::empty());
    assert(out@ + Seq::<u8>::empty() =~= out@);
    Some(out)
}

/// Decodes base64 text (`None` when it is not valid base64, see `b64_decode`).
pub fn decode_base64(input: &str) -> (r: Option<Vec<u8>>)
    ensures
        r matches Some(v) ==> b64_decode(encode_utf8(input@)) == Some(v@),
        r is None ==> b64_decode(encode_utf8(input@)) is None,
{
    let bytes = input.as_bytes();
    assert(bytes@.subrange(0, bytes@.len() as int) =~= bytes@);
    decode_base64_bytes(bytes, 0)
}


// ---------------------------------------------------------------------------
// OSC 7 (working directory) and OSC 1337 (user variables) reports
// ---------------------------------------------------------------------------

/// Builds a `String` from bytes with `String::from_utf8`.
///
/// Trusted: `String::from_utf8` succeeds exactly when the bytes are valid
/// UTF-8, and the string then holds exactly those bytes; the error is dropped.
#[verifier::external_body]
fn string_from_utf8(bytes: Vec<u8>) -> (r: Option<String>)
    ensures
        r is Some <==> valid_utf8(bytes@),
        r matches Some(s) ==> encode_utf8(s@) == bytes@,
{
    String::from_utf8(bytes).ok()
}

/// `ESC ] 7 ; f i l e : / /`, the start of an OSC 7 directory report.
pub open spec fn osc7_marker() -> Seq<u8> {
    seq![27u8, 93, 55, 59, 102, 105, 108, 101, 58, 47, 47]
}

/// The path of the first OSC 7 report in the bytes `b`. The report's payload
/// is read from 13 bytes past the marker (two bytes into the host name) up to
/// BEL; the path starts at the first `/` of that part, or is all of it.
pub open spec fn osc7_path(b: Seq<u8>) -> Option<Seq<u8>> {
    match first_occurrence_from(b, osc7_marker(), 0) {
        None => None,
        Some(p) => {
            let rest = b.subrange(p + 13, b.len() as int);
            match first_occurrence_from(rest, seq![7u8], 0) {
                None => None,
                Some(e) => {
                    let url = rest.subrange(0, e);
                    match first_occurrence_from(url, seq![47u8], 0) {
                        Some(k) => Some(url.subrange(k, url.len() as int)),
                        None => Some(url),
                    }
                },
            }
        },
    }
}

/// The payload of an OSC 7 report can be cut where `osc7_path` reads it: no
/// report, or 13 bytes past its marker is still in the line and on a
/// character boundary.
pub open spec fn osc7_readable(line: Seq<char>) -> bool {
    let b = encode_utf8(line);
    match first_occurrence_from(b, osc7_marker(), 0) {
        None => true,
        Some(p) => p + 13 <= b.len() && is_char_boundary(b, p + 13),
    }
}

/// The directory reported by the first OSC 7 sequence of a line, as text.
pub open spec fn osc7_directory(line: Seq<char>) -> Option<Seq<char>> {
    match osc7_path(encode_utf8(line)) {
        None => None,
        Some(p) => Some(decode_utf8(p)),
    }
}

fn osc7_marker_bytes() -> (v: Vec<u8>)
    ensures
        v@ == osc7_marker(),
{
    let v: Vec<u8> = vec![27u8, 93, 55, 59, 102, 105, 108, 101, 58, 47, 47];
    assert(v@ =~= osc7_marker());
    v
}

/// Whether `osc7_path_from_line` can read the line (see `osc7_readable`).
pub fn osc7_report_readable(line: &str) -> (b: bool)
    ensures
        b == osc7_readable(line@),
{
    let bytes = line.as_bytes();
    let marker = osc7_marker_bytes();
    match bytes_find_from(bytes, marker.as_slice(), 0) {
        None => true,
        Some(p) => {
            if bytes.len() - p < 13 {
                false
            } else {
                line.is_char_boundary(p + 13)
            }
        },
    }
}

/// The path reported by the first OSC 7 sequence of a line (see `osc7_path`).
pub fn osc7_path_from_line(line: &str) -> (r: Option<String>)
    requires
        osc7_readable(line@),
    ensures
        r is None <==> osc7_path(encode_utf8(line@)) is None,
        r matches Some(p) ==> osc7_path(encode_utf8(line@)) == Some(encode_utf8(p@)),
        r matches Some(p) ==> osc7_directory(line@) == Some(p@),
{
    let bytes = line.as_bytes();
    proof {
        vstd::utf8::encode_utf8_valid_utf8(line@);
    }
    let marker = osc7_marker_bytes();
    let pos = match bytes_find_from(bytes, marker.as_slice(), 0) {
        Some(p) => p,
        None => return None,
    };
    assert(bytes@ == encode_utf8(line@));
    assert(first_occurrence_from(encode_utf8(line@), osc7_marker(), 0) == Some(pos as int));
    assert(pos + 13 <= bytes@.len());
    let blen = bytes.len();
    let start = pos + 13;
    let (_, rest) = line.split_at(start);
    let rb = rest.as_bytes();
    proof {
        vstd::utf8::encode_utf8_valid_utf8(rest@);
    }
    let bel: Vec<u8> = vec![7u8];
    assert(bel@ =~= seq![7u8]);
    let end = match bytes_find_from(rb, bel.as_slice(), 0) {
        Some(e) => e,
        None => return None,
    };
    assert(rb@.subrange(end as int, end + 1) == bel@);
    assert(rb@[end as int] == 7u8);
    proof {
        lemma_ascii_ends_char(rb@, end as int);
    }
    let (url, _) = rest.split_at(end);
    let ub = url.as_bytes();
    proof {
        vstd::utf8::encode_utf8_valid_utf8(url@);
    }
    let slash: Vec<u8> = vec![47u8];
    assert(slash@ =~= seq![47u8]);
    match bytes_find_from(ub, slash.as_slice(), 0) {
        Some(k) => {
            assert(ub@.subrange(k as int, k + 1) == slash@);
            assert(ub@[k as int] == 47u8);
            proof {
                lemma_ascii_ends_char(ub@, k as int);
            }
            let (_, path) = url.split_at(k);
            let r = path.to_owned();
            proof {
                vstd::utf8::encode_utf8_decode_utf8(r@);
            }
            Some(r)
        },
        None => {
            let r = url.to_owned();
            proof {
                vstd::utf8::encode_utf8_decode_utf8(r@);
            }
            Some(r)
        },
    }
}

/// `ESC ] 1337 ; SetUserVar=`, the start of an OSC 1337 user variable.
pub open spec fn user_var_prefix() -> Seq<u8> {
    seq![27u8, 93, 49, 51, 51, 55, 59, 83, 101, 116, 85, 115, 101, 114, 86, 97, 114, 61]
}

/// The marker of user variable `key`: `ESC ] 1337 ; SetUserVar=key=`.
pub open spec fn user_var_marker(key: Seq<u8>) -> Seq<u8> {
    user_var_prefix() + key + seq![61u8]
}

/// `b64:`, the prefix of a base64-encoded user variable value.
pub open spec fn b64_tag() -> Seq<u8> {
    seq![98u8, 54, 52, 58]
}

/// A user variable value: `b64:` values are base64-decoded (`None` when that
/// fails; the raw value when the decoded bytes are not UTF-8), others are kept.
pub open spec fn user_var_value(v: Seq<u8>) -> Option<Seq<u8>> {
    if starts_with(v, b64_tag()) {
        match b64_decode(v.subrange(4, v.len() as int)) {
            None => None,
            Some(d) => if valid_utf8(d) {
                Some(d)
            } else {
                Some(v)
            },
        }
    } else {
        Some(v)
    }
}

/// The value of user variable `key` in the first report of it in the bytes
/// `b`: the text between the marker and the next BEL, decoded.
pub open spec fn user_var_in(b: Seq<u8>, key: Seq<u8>) -> Option<Seq<u8>> {
    let m = user_var_marker(key);
    match first_occurrence_from(b, m, 0) {
        None => None,
        Some(p) => {
            let rest = b.subrange(p + m.len(), b.len() as int);
            match first_occurrence_from(rest, seq![7u8], 0) {
                None => None,
                Some(e) => user_var_value(rest.subrange(0, e)),
            }
        },
    }
}

/// The value of user variable `key` reported in a line, as text.
pub open spec fn user_var_text(line: Seq<char>, key: Seq<char>) -> Option<Seq<char>> {
    match user_var_in(encode_utf8(line), encode_utf8(key)) {
        None => None,
        Some(v) => Some(decode_utf8(v)),
    }
}

/// Decodes an OSC 1337 user variable value (see `user_var_value`).
pub fn decode_osc1337_value(value: &str) -> (r: Option<String>)
    ensures
        r is None <==> user_var_value(encode_utf8(value@)) is None,
        r matches Some(s) ==> user_var_value(encode_utf8(value@)) == Some(encode_utf8(s@)),
{
    let vb = value.as_bytes();
    if vb.len() >= 4 && vb[0] == 98 && vb[1] == 54 && vb[2] == 52 && vb[3] == 58 {
        assert(vb@.subrange(0, 4) =~= b64_tag());
        match decode_base64_bytes(vb, 4) {
            None => None,
            Some(decoded) => match string_from_utf8(decoded) {
                Some(s) => Some(s),
                None => Some(value.to_owned()),
            },
        }
    } else {
        assert(!starts_with(vb@, b64_tag())) by {
            if vb@.len() >= 4 {
                let t = vb@.subrange(0, 4);
                assert(t[0] == vb@[0] && t[1] == vb@[1] && t[2] == vb@[2] && t[3] == vb@[3]);
            }
        }
        Some(value.to_owned())
    }
}

/// The value of user variable `key` in the first report of it in `line`.
pub fn osc1337_user_var_from_line(line: &str, key: &str) -> (r: Option<String>)
    ensures
        r is None <==> user_var_in(encode_utf8(line@), encode_utf8(key@)) is None,
        r matches Some(s) ==> user_var_in(encode_utf8(line@), encode_utf8(key@)) == Some(
            encode_utf8(s@),
        ),
        r matches Some(s) ==> user_var_text(line@, key@) == Some(s@),
{
    let bytes = line.as_bytes();
    proof {
        vstd::utf8::encode_utf8_valid_utf8(line@);
    }
    let kb = key.as_bytes();
    let mut marker: Vec<u8> = vec![27u8, 93, 49, 51, 51, 55, 59, 83, 101, 116, 85, 115, 101, 114, 86, 97, 114, 61];
    assert(marker@ =~= user_var_prefix());
    let mut i: usize = 0;
    while i < kb.len()
        invariant
            i <= kb@.len(),
            marker@ == user_var_prefix() + kb@.subrange(0, i as int),
        decreases kb@.len() - i,
    {
        marker.push(kb[i]);
        assert(marker@ =~= user_var_prefix() + kb@.subrange(0, i + 1));
        i += 1;
    }
    marker.push(61u8);
    assert(marker@ =~= user_var_marker(kb@));
    let pos = match bytes_find_from(bytes, marker.as_slice(), 0) {
        Some(p) => p,
        None => return None,
    };
    assert(user_var_prefix().len() == 18);
    assert(marker@.len() >= 19);
    assert(occurs_at(bytes@, marker@, pos as int));
    let blen = bytes.len();
    assert(pos + marker@.len() <= blen);
    let last = pos + marker.len() - 1;
    assert(bytes@.subrange(pos as int, pos + marker@.len()) == marker@);
    assert(bytes@[last as int] == marker@[marker@.len() - 1]);
    proof {
        lemma_ascii_ends_char(bytes@, last as int);
    }
    let (_, rest) = line.split_at(last + 1);
    let rb = rest.as_bytes();
    proof {
        vstd::utf8::encode_utf8_valid_utf8(rest@);
    }
    let bel: Vec<u8> = vec![7u8];
    assert(bel@ =~= seq![7u8]);
    let end = match bytes_find_from(rb, bel.as_slice(), 0) {
        Some(e) => e,
        None => return None,
    };
    assert(rb@.subrange(end as int, end + 1) == bel@);
    assert(rb@[end as int] == 7u8);
    proof {
        lemma_ascii_ends_char(rb@, end as int);
    }
    let (value, _) = rest.split_at(end);
    let r = decode_osc1337_value(value);
    proof {
        if r is Some {
            vstd::utf8::encode_utf8_decode_utf8(r->0@);
        }
    }
    r
}


// ---------------------------------------------------------------------------
// Integers as shells print them
// ---------------------------------------------------------------------------

/// `c` is an ASCII decimal digit.
pub open spec fn is_digit(c: char) -> bool {
    '0' <= c && c <= '9'
}

/// Value of a sequence of decimal digits.
pub open spec fn digits_value(s: Seq<char>) -> int
    decreases s.len(),
{
    if s.len() == 0 {
        0
    } else {
        digits_value(s.drop_last()) * 10 + (s.last() as int - 48)
    }
}

/// Length of the sign in front of the digits of `s` (0 or 1).
pub open spec fn sign_len(s: Seq<char>) -> int {
    if s.len() > 0 && (s[0] == '-' || s[0] == '+') {
        1
    } else {
        0
    }
}

/// The part of `s` after its sign.
pub open spec fn digits_part(s: Seq<char>) -> Seq<char> {
    s.subrange(sign_len(s), s.len() as int)
}

/// Every character of `s` is a decimal digit.
pub open spec fn all_digits(s: Seq<char>) -> bool {
    forall|i: int| 0 <= i < s.len() ==> is_digit(#[trigger] s[i])
}

/// The integer written by `s` as `i32::from_str` reads it: an optional `+` or
/// `-`, then one or more decimal digits.
pub open spec fn decimal_int(s: Seq<char>) -> Option<int> {
    let body = digits_part(s);
    if body.len() == 0 || !all_digits(body) {
        None
    } else if s[0] == '-' {
        Some(-digits_value(body))
    } else {
        Some(digits_value(body))
    }
}

/// `s` parsed as an `i32` (`None` when it is not an integer or out of range).
pub open spec fn parsed_i32(s: Seq<char>) -> Option<i32> {
    match decimal_int(s) {
        Some(v) => if i32::MIN <= v <= i32::MAX {
            Some(v as i32)
        } else {
            None
        },
        None => None,
    }
}

/// A prefix of a digit sequence is worth no more than the whole sequence.
pub proof fn lemma_digits_bounds(s: Seq<char>, k: int)
    requires
        0 <= k <= s.len(),
        all_digits(s),
    ensures
        0 <= digits_value(s.subrange(0, k)) <= digits_value(s),
    decreases s.len(),
{
    if k == s.len() {
        assert(s.subrange(0, k) =~= s);
        if s.len() > 0 {
            lemma_digits_bounds(s.drop_last(), k - 1);
        }
    } else {
        let t = s.drop_last();
        lemma_digits_bounds(t, k);
        assert(t.subrange(0, k) =~= s.subrange(0, k));
        lemma_digits_bounds(t, t.len() as int);
        assert(t.subrange(0, t.len() as int) =~= t);
    }
}

/// Parses an `i32` the way `str::parse::<i32>` does (see `parsed_i32`).
pub fn parse_i32(text: &str) -> (r: Option<i32>)
    ensures
        r == parsed_i32(text@),
{
    let chars = chars_of(text);
    let n = chars.len();
    let mut start: usize = 0;
    if n > 0 && (chars[0] == '-' || chars[0] == '+') {
        start = 1;
    }
    let ghost body = chars@.subrange(start as int, n as int);
    assert(body == digits_part(text@));
    if start == n {
        return None;
    }
    let mut acc: i64 = 0;
    let mut i = start;
    while i < n
        invariant
            chars@ == text@,
            n == chars@.len(),
            start <= i <= n,
            start <= 1,
            start == sign_len(text@),
            body == digits_part(text@),
            body == chars@.subrange(start as int, n as int),
            body.len() > 0,
            forall|m: int| start <= m < i ==> is_digit(chars@[m]),
            acc == digits_value(chars@.subrange(start as int, i as int)),
            0 <= acc <= 2147483648,
        decreases n - i,
    {
        let c = chars[i];
        if !('0' <= c && c <= '9') {
            assert(body[i - start] == c);
            assert(!is_digit(body[i - start]));
            assert(decimal_int(text@) is None);
            return None;
        }
        let d = (c as u32 - 48) as i64;
        assert(chars@.subrange(start as int, i + 1).drop_last() =~= chars@.subrange(
            start as int,
            i as int,
        ));
        let next = acc * 10 + d;
        if next > 2147483648 {
            proof {
                if all_digits(body) {
                    lemma_digits_bounds(body, i + 1 - start);
                    assert(body.subrange(0, i + 1 - start) =~= chars@.subrange(
                        start as int,
                        i + 1,
                    ));
                    assert(digits_value(chars@.subrange(start as int, i + 1)) == next);
                    assert(digits_value(body) > 2147483648);
                }
                assert(parsed_i32(text@) is None);
            }
            return None;
        }
        acc = next;
        i += 1;
    }
    assert(chars@.subrange(start as int, n as int) == body);
    assert forall|m: int| 0 <= m < body.len() implies is_digit(#[trigger] body[m]) by {
        assert(body[m] == chars@[start + m]);
    }
    assert(all_digits(body));
    if chars[0] == '-' {
        Some((0 - acc) as i32)
    } else if acc <= 2147483647 {
        Some(acc as i32)
    } else {
        None
    }
}


// ---------------------------------------------------------------------------
// What one line of shell output reports
// ---------------------------------------------------------------------------

/// What a shell session reports to the application.
#[derive(Debug, Clone)]
pub enum TerminalEvent {
    /// A cleaned line of output.
    Line { session_id: usize, line: String },
    /// The session's state: `ready`, `running` or `closed`.
    Status { session_id: usize, status: String },
    /// The session's working directory.
    Cwd { session_id: usize, cwd: String },
    /// The running command finished after `seconds`, written with four decimals.
    Timing { session_id: usize, seconds: String },
    /// The command that just started.
    LastCommand { session_id: usize, command: String },
    /// The exit code of the command that just finished.
    ExitCode { session_id: usize, exit_code: i32 },
}

/// What one line of shell output reports, in the order the session emits it:
/// a status change, whether the prompt came back (which ends the timing of
/// the running command), the command that started, the exit code, the
/// working directory, and the cleaned line itself.
pub struct ShellLineEffects {
    pub status: Option<String>,
    pub prompt_ready: bool,
    pub last_command: Option<String>,
    pub exit_code: Option<i32>,
    pub cwd: Option<String>,
    pub line: Option<String>,
}

/// The status a prompt-state report sets: `command_start` means running,
/// `prompt_ready` means ready, anything else sets none.
pub open spec fn prompt_status(state: Option<Seq<char>>) -> Option<Seq<char>> {
    match state {
        Some(v) => if v == "command_start"@ {
            Some("running"@)
        } else if v == "prompt_ready"@ {
            Some("ready"@)
        } else {
            None
        },
        None => None,
    }
}

/// The effects of one line of shell output (see `ShellLineEffects`).
pub open spec fn line_effects_spec(line: Seq<char>) -> (
    Option<Seq<char>>,
    bool,
    Option<Seq<char>>,
    Option<i32>,
    Option<Seq<char>>,
    Option<Seq<char>>,
) {
    let state = user_var_text(line, "view_prompt_state"@);
    (
        prompt_status(state),
        state == Some("prompt_ready"@),
        user_var_text(line, "view_last_command"@),
        match user_var_text(line, "view_last_exit_code"@) {
            Some(t) => parsed_i32(t),
            None => None,
        },
        osc7_directory(line),
        if sanitized(line).len() == 0 {
            None
        } else {
            Some(sanitized(line))
        },
    )
}

/// Reads what one line of shell output reports.
pub fn shell_line_effects(line: &str) -> (e: ShellLineEffects)
    requires
        osc7_readable(line@),
    ensures
        (opt_text(e.status), e.prompt_ready, opt_text(e.last_command), e.exit_code, opt_text(
            e.cwd,
        ), opt_text(e.line)) == line_effects_spec(line@),
{
    let state = osc1337_user_var_from_line(line, "view_prompt_state");
    let mut status: Option<String> = None;
    let mut prompt_ready = false;
    if let Some(value) = &state {
        let v = chars_of(value.as_str());
        if crate::text::chars_equal(&v, &chars_of("command_start")) {
            status = Some(crate::text::owned("running"));
        } else if crate::text::chars_equal(&v, &chars_of("prompt_ready")) {
            status = Some(crate::text::owned("ready"));
            prompt_ready = true;
        }
    }
    let last_command = osc1337_user_var_from_line(line, "view_last_command");
    let exit_code = match osc1337_user_var_from_line(line, "view_last_exit_code") {
        Some(value) => parse_i32(value.as_str()),
        None => None,
    };
    let cwd = osc7_path_from_line(line);
    let cleaned = sanitize_terminal_line(line);
    let shown = if cleaned.as_str().is_empty() {
        None
    } else {
        Some(cleaned)
    };
    proof {
        reveal_strlit("command_start");
        reveal_strlit("prompt_ready");
        let spec = line_effects_spec(line@);
        assert(opt_text(state) == user_var_text(line@, "view_prompt_state"@));
        assert(opt_text(status) == spec.0);
        assert(prompt_ready == spec.1);
        assert(opt_text(last_command) == spec.2);
        assert(exit_code == spec.3);
        assert(opt_text(cwd) == spec.4);
        assert(opt_text(shown) == spec.5);
    }
    ShellLineEffects { status, prompt_ready, last_command, exit_code, cwd, line: shown }
}

} // verus!
