use vstd::prelude::*;
use crate::driver::{ParserState, step_spec};
use crate::record::record_of;
use crate::tree::{TreeModel, lemma_owner_found};

verus! {

/// Two trees have the same shape: the same sequences at the same move
/// numbers with the same number of moves, linked alike, and the same current
/// sequence. What the moves say is left out.
pub open spec fn same_shape(m1: TreeModel, m2: TreeModel) -> bool {
    &&& m1.seqs.len() == m2.seqs.len()
    &&& m1.current == m2.current
    &&& forall|i: int|
        0 <= i < m1.seqs.len() ==> {
            &&& #[trigger] m1.seqs[i].start == m2.seqs[i].start
            &&& m1.seqs[i].moves.len() == m2.seqs[i].moves.len()
            &&& m1.seqs[i].follow_ups == m2.seqs[i].follow_ups
            &&& m1.seqs[i].parent == m2.seqs[i].parent
        }
}

proof fn lemma_owner_from_same_shape(m1: TreeModel, m2: TreeModel, id: nat, p: int)
    requires
        same_shape(m1, m2),
    ensures
        m1.owner_from(id, p) == m2.owner_from(id, p),
    decreases id,
{
    if id < m1.seqs.len() {
        assert(m1.seqs[id as int].start == m2.seqs[id as int].start);
        if !m1.seqs[id as int].covers(p) && id != 0 && m1.seqs[id as int].parent < id {
            lemma_owner_from_same_shape(m1, m2, m1.seqs[id as int].parent as nat, p);
        }
    }
}

/// Navigation goes by position alone: the move at index `k` of a sequence
/// counts as move `start + k`, whatever number the move itself reports. So
/// two trees of the same shape choose the same sequence to branch off, and
/// branching keeps their shapes the same.
pub proof fn navigation_is_positional(m1: TreeModel, m2: TreeModel, b: int)
    requires
        same_shape(m1, m2),
    ensures
        m1.owner(b - 1) == m2.owner(b - 1),
        m1.owner(b - 1) matches Some(s) ==> same_shape(m1.branched(s, b), m2.branched(s, b)),
{
    lemma_owner_from_same_shape(m1, m2, m1.current as nat, b - 1);
    lemma_owner_found(m1, m1.current as nat, b - 1);
    if let Some(s) = m1.owner(b - 1) {
        let n1 = m1.branched(s, b);
        let n2 = m2.branched(s, b);
        assert(m1.seqs[s as int].start == m2.seqs[s as int].start);
        assert forall|i: int| 0 <= i < n1.seqs.len() implies {
            &&& #[trigger] n1.seqs[i].start == n2.seqs[i].start
            &&& n1.seqs[i].moves.len() == n2.seqs[i].moves.len()
            &&& n1.seqs[i].follow_ups == n2.seqs[i].follow_ups
            &&& n1.seqs[i].parent == n2.seqs[i].parent
        } by {
            assert(m1.seqs[i].start == m2.seqs[i].start || i >= m1.seqs.len());
        }
    }
}

/// In a well-formed tree every identifier held as a follow-up or as a parent
/// names a sequence. Every operation of `ParserContext` keeps its tree
/// well-formed, so this holds after any series of them.
pub proof fn no_dangling_ids(m: TreeModel)
    requires
        m.wf(),
    ensures
        forall|i: int, j: int|
            0 <= i < m.seqs.len() && 0 <= j < m.seqs[i].follow_ups.len() ==> #[trigger] m.seqs[i].follow_ups[j]
                < m.seqs.len(),
        forall|i: int| 0 <= i < m.seqs.len() ==> #[trigger] m.seqs[i].parent < m.seqs.len(),
{
    assert forall|i: int| 0 <= i < m.seqs.len() implies #[trigger] m.seqs[i].parent
        < m.seqs.len() by {
        if i > 0 {
            assert(m.seqs[i].parent < i);
        }
    }
}

/// A line whose move number cannot be read changes nothing: adding its
/// record leaves the tree as it was, and inside a section such a line (not
/// blank) leaves both the tree and the scanner's state as they were.
pub proof fn unrecognized_line_is_inert(
    m: TreeModel,
    state: ParserState,
    main_marker: Seq<char>,
    variation_marker: Seq<char>,
    from: int,
    to: int,
    line: Seq<char>,
)
    requires
        record_of(line, from, to) is Unrecognized,
    ensures
        m.appended(record_of(line, from, to)) == m,
        (state == ParserState::InMainLine || state == ParserState::InVariationBody) && line.len()
            > 0 ==> step_spec(state, main_marker, variation_marker, from, to, m, line) == Ok::<
            (ParserState, TreeModel),
            int,
        >((state, m)),
{
}

/// A branch point whose previous move no sequence holds is an orphan: the
/// search finds nothing, so `add_variation` reports it and changes nothing.
pub proof fn orphan_branch_point(m: TreeModel, b: int)
    requires
        forall|i: int| 0 <= i < m.seqs.len() ==> !(#[trigger] m.seqs[i]).covers(b - 1),
    ensures
        m.owner(b - 1) is None,
{
    lemma_owner_found(m, m.current as nat, b - 1);
}

} // verus!
