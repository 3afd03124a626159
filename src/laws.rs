use vstd::prelude::*;
use crate::model::{
    columns_from, display_width, is_csi_final, state_after, step, ScanState, ESC,
};

verus! {

/// Reading `a + b` from `st` takes the columns of `a`, then those of `b` from
/// the state in which `a` leaves the scan.
pub proof fn lemma_columns_concat(st: ScanState, a: Seq<char>, b: Seq<char>)
    ensures
        columns_from(st, a + b) == columns_from(st, a) + columns_from(state_after(st, a), b),
        state_after(st, a + b) == state_after(state_after(st, a), b),
    decreases a.len(),
{
    if a.len() == 0 {
        assert(a + b =~= b);
    } else {
        assert((a + b).drop_first() =~= a.drop_first() + b);
        assert((a + b)[0] == a[0]);
        lemma_columns_concat(step(st, a[0]).0, a.drop_first(), b);
    }
}

/// Inside a control sequence, characters none of which ends it take no
/// columns and leave the scan inside it.
pub proof fn lemma_open_csi(t: Seq<char>)
    requires
        forall|i: int| 0 <= i < t.len() ==> !is_csi_final(#[trigger] t[i]),
    ensures
        columns_from(ScanState::Csi, t) == 0,
        state_after(ScanState::Csi, t) == ScanState::Csi,
    decreases t.len(),
{
    if t.len() > 0 {
        assert(!is_csi_final(t[0]));
        assert forall|i: int| 0 <= i < t.drop_first().len() implies !is_csi_final(
            #[trigger] t.drop_first()[i],
        ) by {
            assert(t.drop_first()[i] == t[i + 1]);
        }
        lemma_open_csi(t.drop_first());
    }
}

/// Where no escape sequence spans the boundary between `a` and `b` (the scan
/// of `a` ends in ordinary text), the width of `a + b` is the width of `a`
/// plus the width of `b`.
pub proof fn width_of_concat(a: Seq<char>, b: Seq<char>)
    requires
        state_after(ScanState::Text, a) == ScanState::Text,
    ensures
        display_width(a + b) == display_width(a) + display_width(b),
{
    lemma_columns_concat(ScanState::Text, a, b);
}

/// A bare escape character at the end of the text takes no columns.
pub proof fn width_of_trailing_escape(a: Seq<char>)
    requires
        state_after(ScanState::Text, a) == ScanState::Text,
    ensures
        display_width(a + seq![ESC]) == display_width(a),
        display_width(seq![ESC]) == 0,
{
    let e = seq![ESC];
    lemma_columns_concat(ScanState::Text, a, e);
    assert(e[0] == ESC);
    assert(columns_from(ScanState::Escape, e.drop_first()) == 0);
    assert(columns_from(ScanState::Text, e) == 0);
}

/// A control sequence that the text ends before its final character takes
/// no columns, the whole of it.
pub proof fn width_of_unterminated_csi(a: Seq<char>, t: Seq<char>)
    requires
        state_after(ScanState::Text, a) == ScanState::Text,
        forall|i: int| 0 <= i < t.len() ==> !is_csi_final(#[trigger] t[i]),
    ensures
        display_width(a + seq![ESC, '['] + t) == display_width(a),
{
    let intro = seq![ESC, '['];
    lemma_open_csi(t);
    assert(a + intro + t =~= a + (intro + t));
    lemma_columns_concat(ScanState::Text, a, intro + t);
    let x = intro + t;
    assert(x[0] == ESC);
    assert(x.drop_first()[0] == '[');
    assert(x.drop_first().drop_first() =~= t);
    assert(columns_from(ScanState::Escape, x.drop_first()) == columns_from(
        ScanState::Csi,
        t,
    ));
}

} // verus!
