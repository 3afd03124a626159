use vstd::prelude::*;
use crate::unicode::unicode_width_of;

verus! {

/// The escape character, which starts every escape sequence.
pub const ESC: char = '\x1b';

/// The bell character, one of the two terminators of an operating system command.
pub const BEL: char = '\x07';

/// Where a scan stands between two characters.
pub enum ScanState {
    /// Ordinary text: each character is measured.
    Text,
    /// Right after an escape character.
    Escape,
    /// Inside a control sequence, after `ESC [`.
    Csi,
    /// Inside an operating system command, after `ESC ]`; `after_esc` holds
    /// when the character just taken was an escape character.
    Osc { after_esc: bool },
}

/// A character that ends a control sequence.
pub open spec fn is_csi_final(c: char) -> bool {
    '\x40' <= c && c <= '\x7c'
}

/// The columns that a measured character takes: none where it has no width.
pub open spec fn char_columns(c: char) -> nat {
    match unicode_width_of(c) {
        Some(w) => w as nat,
        None => 0,
    }
}

/// The state that follows `st` on the character `c`, and the columns that `c`
/// adds.
pub open spec fn step(st: ScanState, c: char) -> (ScanState, nat) {
    match st {
        ScanState::Text => if c == ESC {
            (ScanState::Escape, 0)
        } else {
            (ScanState::Text, char_columns(c))
        },
        ScanState::Escape => if c == '\\' {
            (ScanState::Text, 0)
        } else if c == '[' {
            (ScanState::Csi, 0)
        } else if c == ']' {
            (ScanState::Osc { after_esc: false }, 0)
        } else {
            (ScanState::Text, char_columns(c))
        },
        ScanState::Csi => if is_csi_final(c) {
            (ScanState::Text, 0)
        } else {
            (ScanState::Csi, 0)
        },
        ScanState::Osc { after_esc } => if c == BEL || (c == '\\' && after_esc) {
            (ScanState::Text, 0)
        } else {
            (ScanState::Osc { after_esc: c == ESC }, 0)
        },
    }
}

/// The columns that the characters of `s` take when a scan reads them from
/// state `st`.
pub open spec fn columns_from(st: ScanState, s: Seq<char>) -> nat
    decreases s.len(),
{
    if s.len() == 0 {
        0
    } else {
        let (next, w) = step(st, s[0]);
        w + columns_from(next, s.drop_first())
    }
}

/// The state in which a scan from `st` stands after reading all of `s`.
pub open spec fn state_after(st: ScanState, s: Seq<char>) -> ScanState
    decreases s.len(),
{
    if s.len() == 0 {
        st
    } else {
        state_after(step(st, s[0]).0, s.drop_first())
    }
}

/// The display width of `s`: the columns of the characters outside escape
/// sequences.
pub open spec fn display_width(s: Seq<char>) -> nat {
    columns_from(ScanState::Text, s)
}

/// `t` is what is left of `s` once some of its first characters are taken.
pub open spec fn is_suffix_of(t: Seq<char>, s: Seq<char>) -> bool {
    t.len() <= s.len() && t == s.subrange(s.len() - t.len(), s.len() as int)
}

/// Every character of `s` is printable ASCII, `' '..='~'`.
pub open spec fn is_printable_ascii(s: Seq<char>) -> bool {
    forall|i: int| 0 <= i < s.len() ==> ' ' <= #[trigger] s[i] && s[i] <= '~'
}

/// Every character of `s` is a C0 control character, below `' '`.
pub open spec fn is_c0_controls(s: Seq<char>) -> bool {
    forall|i: int| 0 <= i < s.len() ==> #[trigger] s[i] < ' '
}

/// `n`, or the largest `usize` where `n` is larger.
pub open spec fn saturate(n: nat) -> int {
    if n <= usize::MAX {
        n as int
    } else {
        usize::MAX as int
    }
}

} // verus!
