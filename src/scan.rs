use vstd::prelude::*;
use std::str::Chars;
use vstd::std_specs::iter::IteratorSpec;
use crate::model::{
    char_columns, columns_from, display_width, is_c0_controls, is_printable_ascii, is_suffix_of,
    saturate, step, ScanState, BEL, ESC,
};
use crate::unicode::char_width;

verus! {

broadcast use vstd::string::group_string_axioms, vstd::string::next_postcondition;

/// What is left after one more character is taken is still a suffix.
proof fn lemma_suffix_drop_first(t: Seq<char>, s: Seq<char>)
    requires
        is_suffix_of(t, s),
        t.len() > 0,
    ensures
        is_suffix_of(t.drop_first(), s),
        t[0] == s[s.len() - t.len()],
{
    assert(t.drop_first() =~= s.subrange(s.len() - t.len() + 1, s.len() as int));
}

/// A suffix of a suffix is a suffix.
proof fn lemma_suffix_trans(u: Seq<char>, t: Seq<char>, s: Seq<char>)
    requires
        is_suffix_of(u, t),
        is_suffix_of(t, s),
    ensures
        is_suffix_of(u, s),
{
    assert(u =~= s.subrange(s.len() - u.len(), s.len() as int));
}

/// Adds the columns of `c` to `width`, staying at `usize::MAX` once there.
fn add_columns(width: usize, c: char) -> (r: usize)
    ensures
        r as int == saturate(width as nat + char_columns(c)),
        ' ' <= c && c <= '~' ==> char_columns(c) == 1,
        c < ' ' ==> char_columns(c) == 0,
{
    match char_width(c) {
        Some(w) => width.saturating_add(w),
        None => width,
    }
}

/// Takes the rest of a control sequence from `chars`: up to and including its
/// final character, or all that is left; `true` where the text ran out first.
fn skip_csi(chars: &mut Chars) -> (ran_out: bool)
    requires
        (*old(chars)).decrease() is Some,
    ensures
        columns_from(ScanState::Csi, (*old(chars)).remaining())
            == columns_from(ScanState::Text, (*final(chars)).remaining()),
        is_suffix_of((*final(chars)).remaining(), (*old(chars)).remaining()),
        ran_out ==> (*final(chars)).remaining().len() == 0,
        !ran_out ==> (*final(chars)).decrease() is Some && (*final(chars)).decrease()->0 < (*old(
            chars,
        )).decrease()->0,
{
    let ghost rest = (*chars).remaining();
    let ghost start = (*chars).decrease()->0;
    proof {
        assert(rest =~= rest.subrange(0, rest.len() as int));
    }
    loop
        invariant_except_break
            columns_from(ScanState::Csi, rest) == columns_from(ScanState::Csi, (*chars).remaining()),
            (*chars).decrease() is Some,
            (*chars).decrease()->0 <= start,
        invariant
            rest == (*old(chars)).remaining(),
            start == (*old(chars)).decrease()->0,
            is_suffix_of((*chars).remaining(), rest),
        ensures
            columns_from(ScanState::Csi, rest) == columns_from(ScanState::Text, (*chars).remaining()),
            (*chars).decrease() is Some,
            (*chars).decrease()->0 < start,
        decreases (*chars).decrease()->0,
    {
        let ghost before = (*chars).remaining();
        let r = chars.next();
        proof {
            if r is Some {
                lemma_suffix_drop_first(before, rest);
            }
        }
        match r {
            None => return true,
            Some(c) => {
                if '\x40' <= c && c <= '\x7c' {
                    break;
                }
            },
        }
    }
    false
}

/// Takes the rest of an operating system command from `chars`: up to and
/// including a bell or the backslash of `ESC \`, or all that is left; `true`
/// where the text ran out first.
fn skip_osc(chars: &mut Chars) -> (ran_out: bool)
    requires
        (*old(chars)).decrease() is Some,
    ensures
        columns_from(ScanState::Osc { after_esc: false }, (*old(chars)).remaining())
            == columns_from(ScanState::Text, (*final(chars)).remaining()),
        is_suffix_of((*final(chars)).remaining(), (*old(chars)).remaining()),
        ran_out ==> (*final(chars)).remaining().len() == 0,
        !ran_out ==> (*final(chars)).decrease() is Some && (*final(chars)).decrease()->0 < (*old(
            chars,
        )).decrease()->0,
{
    let ghost rest = (*chars).remaining();
    let ghost start = (*chars).decrease()->0;
    proof {
        assert(rest =~= rest.subrange(0, rest.len() as int));
    }
    let mut last: char = ']';
    loop
        invariant_except_break
            columns_from(ScanState::Osc { after_esc: false }, rest) == columns_from(
                ScanState::Osc { after_esc: last == ESC },
                (*chars).remaining(),
            ),
            (*chars).decrease() is Some,
            (*chars).decrease()->0 <= start,
        invariant
            rest == (*old(chars)).remaining(),
            start == (*old(chars)).decrease()->0,
            is_suffix_of((*chars).remaining(), rest),
        ensures
            columns_from(ScanState::Osc { after_esc: false }, rest) == columns_from(
                ScanState::Text,
                (*chars).remaining(),
            ),
            (*chars).decrease() is Some,
            (*chars).decrease()->0 < start,
        decreases (*chars).decrease()->0,
    {
        let ghost before = (*chars).remaining();
        let r = chars.next();
        proof {
            if r is Some {
                lemma_suffix_drop_first(before, rest);
            }
        }
        match r {
            None => return true,
            Some(new) => {
                if new == BEL || (new == '\\' && last == ESC) {
                    break;
                }
                last = new;
            },
        }
    }
    false
}

/// The number of terminal columns that `s` takes, with escape sequences
/// taking none: `ESC \`; a control sequence `ESC [` up to a character in
/// `'\x40'..='\x7c'`; an operating system command `ESC ]` up to a bell or
/// `ESC \`. After any other escape only the escape character itself is
/// left out. A sequence that the text ends inside takes no columns.
pub fn ansi_width(s: &str) -> (r: usize)
    ensures
        r as int == saturate(display_width(s@)),
        is_printable_ascii(s@) ==> r as int == saturate(s@.len()),
        is_c0_controls(s@) ==> r == 0,
{
    let mut width: usize = 0;
    let mut chars = s.chars();
    proof {
        assert(s@ =~= s@.subrange(0, s@.len() as int));
    }
    loop
        invariant_except_break
            columns_from(ScanState::Text, chars.remaining()) <= display_width(s@),
            width as int == saturate(
                (display_width(s@) - columns_from(ScanState::Text, chars.remaining())) as nat,
            ),
            chars.decrease() is Some,
            is_printable_ascii(s@) ==> width as int == saturate(
                (s@.len() - chars.remaining().len()) as nat,
            ),
        invariant
            is_suffix_of(chars.remaining(), s@),
            is_c0_controls(s@) ==> width == 0,
        ensures
            width as int == saturate(display_width(s@)),
            is_printable_ascii(s@) ==> width as int == saturate(s@.len()),
        decreases chars.decrease()->0,
    {
        let ghost text = chars.remaining();
        match chars.next() {
            None => break,
            Some(c) => {
                proof {
                    lemma_suffix_drop_first(text, s@);
                }
                if c == ESC {
                    let ghost after_esc = chars.remaining();
                    assert(columns_from(ScanState::Text, text) == columns_from(
                        ScanState::Escape,
                        after_esc,
                    ));
                    match chars.next() {
                        None => break,
                        Some(e) => {
                            proof {
                                lemma_suffix_drop_first(after_esc, s@);
                            }
                            assert(columns_from(ScanState::Escape, after_esc) == step(
                                ScanState::Escape,
                                e,
                            ).1 + columns_from(step(ScanState::Escape, e).0, chars.remaining()));
                            if e == '\\' {
                            } else if e == '[' {
                                let ghost inner = chars.remaining();
                                let ran_out = skip_csi(&mut chars);
                                proof {
                                    lemma_suffix_trans(chars.remaining(), inner, s@);
                                }
                                if ran_out {
                                    break;
                                }
                            } else if e == ']' {
                                let ghost inner = chars.remaining();
                                let ran_out = skip_osc(&mut chars);
                                proof {
                                    lemma_suffix_trans(chars.remaining(), inner, s@);
                                }
                                if ran_out {
                                    break;
                                }
                            } else {
                                width = add_columns(width, e);
                            }
                        },
                    }
                } else {
                    width = add_columns(width, c);
                }
            },
        }
    }
    width
}

} // verus!
