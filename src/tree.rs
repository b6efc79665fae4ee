use vstd::prelude::*;
use crate::move_vec::MoveVec;
use crate::record::{MoveRecord, RecordModel};

verus! {

/// Identifies a sequence of one `ParserContext`: its place in the arena.
pub type SequenceId = usize;

/// The identifier of the root sequence, the main line.
pub const ROOT: SequenceId = 0;

/// First character column of a line's move number, by default.
pub const DEFAULT_COLUMN_FROM: usize = 1;

/// Character column just past a line's move number, by default.
pub const DEFAULT_COLUMN_TO: usize = 4;

/// Why an operation on the tree did not take place.
#[derive(Clone, Copy, Debug, PartialEq, Eq)]
pub enum TreeError {
    /// No sequence on the way from the current one up to the root holds the
    /// move just before this branch point.
    OrphanBranchPoint(usize),
    /// No sequence has this identifier.
    UnknownSequence(SequenceId),
}

/// A run of consecutive moves with one branch origin: a node of the tree.
pub struct Sequence {
    moves: MoveVec<MoveRecord>,
    follow_ups: Vec<SequenceId>,
    parent: SequenceId,
}

/// A sequence as mathematical values.
pub struct SequenceModel {
    /// Move number of the first move (or of the first move to come).
    pub start: int,
    pub moves: Seq<RecordModel>,
    /// The sequences that branch off this one, in the order they were added.
    pub follow_ups: Seq<SequenceId>,
    pub parent: SequenceId,
}

impl View for Sequence {
    type V = SequenceModel;

    closed spec fn view(&self) -> SequenceModel {
        SequenceModel {
            start: self.moves.start(),
            moves: self.moves.items().map_values(|r: MoveRecord| r@),
            follow_ups: self.follow_ups@,
            parent: self.parent,
        }
    }
}

impl Sequence {
    pub fn start_move_number(&self) -> (r: usize)
        ensures
            r == self@.start,
    {
        self.moves.start_move_number()
    }

    pub fn moves(&self) -> (r: &MoveVec<MoveRecord>)
        ensures
            r.start() == self@.start,
            r.items().map_values(|m: MoveRecord| m@) == self@.moves,
    {
        &self.moves
    }

    pub fn follow_ups(&self) -> (r: &Vec<SequenceId>)
        ensures
            r@ == self@.follow_ups,
    {
        &self.follow_ups
    }

    pub fn parent(&self) -> (r: SequenceId)
        ensures
            r == self@.parent,
    {
        self.parent
    }
}

impl SequenceModel {
    /// Whether move number `n` lies in this run, by position.
    pub open spec fn covers(self, n: int) -> bool {
        self.start <= n < self.start + self.moves.len()
    }
}

/// The whole tree as mathematical values: the sequences by identifier, and
/// the current sequence.
pub struct TreeModel {
    pub seqs: Seq<SequenceModel>,
    pub current: SequenceId,
}

impl TreeModel {
    pub open spec fn valid_id(self, id: SequenceId) -> bool {
        id < self.seqs.len()
    }

    /// The tree's invariants: the root is its own parent, every other
    /// sequence's parent was created before it (so following parents ends at
    /// the root), every identifier held resolves, and no follow-up list holds
    /// an identifier twice.
    pub open spec fn wf(self) -> bool {
        &&& self.seqs.len() > 0
        &&& self.valid_id(self.current)
        &&& self.seqs[0].parent == 0
        &&& forall|i: int| 0 < i < self.seqs.len() ==> #[trigger] self.seqs[i].parent < i
        &&& forall|i: int, j: int|
            0 <= i < self.seqs.len() && 0 <= j < self.seqs[i].follow_ups.len() ==> self.valid_id(
                #[trigger] self.seqs[i].follow_ups[j],
            )
        &&& forall|i: int| 0 <= i < self.seqs.len() ==> #[trigger] self.seqs[i].follow_ups.no_duplicates()
        &&& forall|i: int| 0 <= i < self.seqs.len() ==> 0 <= #[trigger] self.seqs[i].start
    }

    /// A tree that holds only the root: empty, starting at move 1.
    pub open spec fn initial() -> TreeModel {
        TreeModel {
            seqs: seq![
                SequenceModel {
                    start: 1,
                    moves: Seq::empty(),
                    follow_ups: Seq::empty(),
                    parent: 0,
                },
            ],
            current: 0,
        }
    }

    /// The first sequence that holds move `p`, looking at `id`, then at its
    /// parent, and so on up to the root.
    pub open spec fn owner_from(self, id: nat, p: int) -> Option<nat>
        decreases id,
    {
        if id >= self.seqs.len() {
            None
        } else if self.seqs[id as int].covers(p) {
            Some(id)
        } else if id == 0 || self.seqs[id as int].parent >= id {
            None
        } else {
            self.owner_from(self.seqs[id as int].parent as nat, p)
        }
    }

    /// The sequence that a branch needing move `p` splits: the first one
    /// holding `p` from the current sequence up.
    pub open spec fn owner(self, p: int) -> Option<nat> {
        self.owner_from(self.current as nat, p)
    }

    /// The tree after a new empty sequence starting at `start` was made a
    /// child of the current one (without joining its follow-ups) and became
    /// current.
    pub open spec fn created(self, start: int) -> TreeModel {
        TreeModel {
            seqs: self.seqs.push(
                SequenceModel {
                    start,
                    moves: Seq::empty(),
                    follow_ups: Seq::empty(),
                    parent: self.current,
                },
            ),
            current: self.seqs.len() as SequenceId,
        }
    }

    /// The tree after `r` was added: a recorded move goes to the end of the
    /// current sequence; an unrecognized one changes nothing.
    pub open spec fn appended(self, r: RecordModel) -> TreeModel {
        match r {
            RecordModel::Recorded { .. } => TreeModel {
                seqs: self.seqs.update(
                    self.current as int,
                    SequenceModel {
                        moves: self.seqs[self.current as int].moves.push(r),
                        ..self.seqs[self.current as int]
                    },
                ),
                current: self.current,
            },
            RecordModel::Unrecognized { .. } => self,
        }
    }

    /// Whether a branch at `b` off sequence `s` cuts it: `s` reaches past
    /// move `b - 1`.
    pub open spec fn splits(self, s: nat, b: int) -> bool {
        b - self.seqs[s as int].start < self.seqs[s as int].moves.len()
    }

    /// The identifier that a branch at `b` off `s` gives the new variation.
    pub open spec fn variation_id(self, s: nat, b: int) -> nat {
        if self.splits(s, b) {
            self.seqs.len() + 1
        } else {
            self.seqs.len()
        }
    }

    /// The tree after a new variation starting at move `b` branched off
    /// sequence `s`. Where `s` reaches past move `b - 1` it is cut there: a
    /// continuation sequence, starting at `b`, takes the moves cut off and all
    /// of `s`'s follow-ups, and `s`'s follow-ups become the continuation and
    /// the variation. Otherwise the variation just joins `s`'s follow-ups.
    /// The variation is empty, starts at `b`, has parent `s`, and becomes
    /// current.
    pub open spec fn branched(self, s: nat, b: int) -> TreeModel {
        let old_s = self.seqs[s as int];
        let n = self.seqs.len();
        let k = b - old_s.start;
        let variation = SequenceModel {
            start: b,
            moves: Seq::empty(),
            follow_ups: Seq::empty(),
            parent: s as SequenceId,
        };
        if self.splits(s, b) {
            let continuation = SequenceModel {
                start: b,
                moves: old_s.moves.subrange(k, old_s.moves.len() as int),
                follow_ups: old_s.follow_ups,
                parent: s as SequenceId,
            };
            let cut = SequenceModel {
                moves: old_s.moves.subrange(0, k),
                follow_ups: seq![n as SequenceId, (n + 1) as SequenceId],
                ..old_s
            };
            TreeModel {
                seqs: self.seqs.update(s as int, cut).push(continuation).push(variation),
                current: (n + 1) as SequenceId,
            }
        } else {
            let grown = SequenceModel {
                follow_ups: old_s.follow_ups.push(n as SequenceId),
                ..old_s
            };
            TreeModel {
                seqs: self.seqs.update(s as int, grown).push(variation),
                current: n as SequenceId,
            }
        }
    }
}

/// What `owner_from` finds holds the move and exists.
pub proof fn lemma_owner_found(m: TreeModel, id: nat, p: int)
    ensures
        m.owner_from(id, p) matches Some(s) ==> s < m.seqs.len() && m.seqs[s as int].covers(p),
    decreases id,
{
    if id < m.seqs.len() && !m.seqs[id as int].covers(p) && id != 0 && m.seqs[id as int].parent
        < id {
        lemma_owner_found(m, m.seqs[id as int].parent as nat, p);
    }
}

/// No sequence holds a move before move 0.
pub proof fn lemma_owner_negative(m: TreeModel, id: nat, p: int)
    requires
        m.wf(),
        p < 0,
    ensures
        m.owner_from(id, p) is None,
    decreases id,
{
    if id < m.seqs.len() && id != 0 && m.seqs[id as int].parent < id {
        lemma_owner_negative(m, m.seqs[id as int].parent as nat, p);
    }
}

/// Making a new sequence keeps the invariants.
pub proof fn lemma_created_wf(m: TreeModel, start: int)
    requires
        m.wf(),
        0 <= start,
        m.seqs.len() + 1 <= usize::MAX,
    ensures
        m.created(start).wf(),
{
    let m2 = m.created(start);
    assert forall|i: int| 0 <= i < m2.seqs.len() implies #[trigger] m2.seqs[i].follow_ups.no_duplicates() by {
        if i < m.seqs.len() {
            assert(m2.seqs[i] == m.seqs[i]);
        }
    }
    assert forall|i: int, j: int|
        0 <= i < m2.seqs.len() && 0 <= j < m2.seqs[i].follow_ups.len() implies m2.valid_id(
        #[trigger] m2.seqs[i].follow_ups[j],
    ) by {
        assert(i < m.seqs.len());
        assert(m2.seqs[i] == m.seqs[i]);
    }
}

/// Adding a record keeps the invariants.
pub proof fn lemma_appended_wf(m: TreeModel, r: RecordModel)
    requires
        m.wf(),
    ensures
        m.appended(r).wf(),
{
    let m2 = m.appended(r);
    assert forall|i: int, j: int|
        0 <= i < m2.seqs.len() && 0 <= j < m2.seqs[i].follow_ups.len() implies m2.valid_id(
        #[trigger] m2.seqs[i].follow_ups[j],
    ) by {
        assert(m2.seqs[i].follow_ups == m.seqs[i].follow_ups);
    }
    assert forall|i: int| 0 <= i < m2.seqs.len() implies #[trigger] m2.seqs[i].follow_ups.no_duplicates() by {
        assert(m2.seqs[i].follow_ups == m.seqs[i].follow_ups);
    }
}

/// Branching off a sequence that holds the move before the branch point
/// keeps the invariants.
pub proof fn lemma_branched_wf(m: TreeModel, s: nat, b: int)
    requires
        m.wf(),
        s < m.seqs.len(),
        m.seqs[s as int].covers(b - 1),
        m.branched(s, b).seqs.len() <= usize::MAX,
    ensures
        m.branched(s, b).wf(),
{
    let m2 = m.branched(s, b);
    let n = m.seqs.len();
    assert forall|i: int, j: int|
        0 <= i < m2.seqs.len() && 0 <= j < m2.seqs[i].follow_ups.len() implies m2.valid_id(
        #[trigger] m2.seqs[i].follow_ups[j],
    ) by {
        if i < n && i != s {
            assert(m2.seqs[i] == m.seqs[i]);
        }
    }
    assert forall|i: int| 0 <= i < m2.seqs.len() implies #[trigger] m2.seqs[i].follow_ups.no_duplicates() by {
        if i < n && i != s {
            assert(m2.seqs[i] == m.seqs[i]);
        } else if i == s && !m.splits(s, b) {
            let f = m.seqs[i].follow_ups;
            let g = f.push(n as SequenceId);
            assert(f.no_duplicates());
            assert forall|x: int, y: int|
                0 <= x < g.len() && 0 <= y < g.len() && x != y implies #[trigger] g[x] != #[trigger] g[y] by {
                if y == f.len() {
                    assert(m.valid_id(f[x]));
                } else if x == f.len() {
                    assert(m.valid_id(f[y]));
                } else {
                    assert(g[x] == f[x] && g[y] == f[y]);
                }
            }
            assert(m2.seqs[i].follow_ups == g);
        }
    }
    assert forall|i: int| 0 < i < m2.seqs.len() implies #[trigger] m2.seqs[i].parent < i by {
        if i < n {
            assert(m2.seqs[i].parent == m.seqs[i].parent);
        }
    }
}

/// The state of one parse: the arena of sequences, the current sequence,
/// and where move numbers stand in a line.
pub struct ParserContext {
    line_num_from: usize,
    line_num_to: usize,
    seqs: Vec<Sequence>,
    context_name: String,
    current_sequence: SequenceId,
}

impl ParserContext {
    /// The tree that this context holds.
    pub closed spec fn model(&self) -> TreeModel {
        TreeModel { seqs: self.seqs@.map_values(|q: Sequence| q@), current: self.current_sequence }
    }

    /// First character column of the move number in a line.
    pub closed spec fn column_from(&self) -> int {
        self.line_num_from as int
    }

    /// Character column just past the move number in a line.
    pub closed spec fn column_to(&self) -> int {
        self.line_num_to as int
    }

    pub closed spec fn name(&self) -> Seq<char> {
        self.context_name@
    }

    pub open spec fn wf(&self) -> bool {
        self.model().wf()
    }

    /// The settings (columns and name) stay as in `other`.
    pub open spec fn same_settings(&self, other: &ParserContext) -> bool {
        &&& self.column_from() == other.column_from()
        &&& self.column_to() == other.column_to()
        &&& self.name() == other.name()
    }

    /// A context that holds only the root sequence: empty, starting at move 1,
    /// and current. Move numbers are read from columns 1 to 4.
    pub fn new(context_name: &str) -> (r: Self)
        ensures
            r.wf(),
            r.model() == TreeModel::initial(),
            r.column_from() == DEFAULT_COLUMN_FROM,
            r.column_to() == DEFAULT_COLUMN_TO,
            r.name() == context_name@,
    {
        let root = Sequence { moves: MoveVec::new(Vec::new(), 1), follow_ups: Vec::new(), parent: ROOT };
        let mut seqs: Vec<Sequence> = Vec::new();
        seqs.push(root);
        let r = ParserContext {
            line_num_from: DEFAULT_COLUMN_FROM,
            line_num_to: DEFAULT_COLUMN_TO,
            seqs,
            context_name: context_name.to_owned(),
            current_sequence: ROOT,
        };
        proof {
            assert(r.model().seqs[0].moves =~= Seq::<RecordModel>::empty());
            assert(r.model().seqs =~= TreeModel::initial().seqs);
        }
        r
    }

    /// The root sequence: the main line.
    pub fn root_id(&self) -> (r: SequenceId)
        ensures
            r == ROOT,
    {
        ROOT
    }

    /// The sequence that moves are added to.
    pub fn current(&self) -> (r: SequenceId)
        ensures
            r == self.model().current,
    {
        self.current_sequence
    }

    /// How many sequences there are; their identifiers are `0 .. count`.
    pub fn sequence_count(&self) -> (r: usize)
        ensures
            r == self.model().seqs.len(),
    {
        self.seqs.len()
    }

    pub fn context_name(&self) -> (r: &String)
        ensures
            r@ == self.name(),
    {
        &self.context_name
    }

    /// The sequence `id`, or `UnknownSequence` where there is none.
    pub fn get(&self, id: SequenceId) -> (r: Result<&Sequence, TreeError>)
        ensures
            self.model().valid_id(id) ==> (r matches Ok(q) && q@ == self.model().seqs[id as int]),
            !self.model().valid_id(id) ==> r == Err::<&Sequence, TreeError>(
                TreeError::UnknownSequence(id),
            ),
    {
        if id < self.seqs.len() {
            Ok(&self.seqs[id])
        } else {
            Err(TreeError::UnknownSequence(id))
        }
    }

    /// The sequences that branch off sequence `id`.
    pub fn children(&self, id: SequenceId) -> (r: Result<&Vec<SequenceId>, TreeError>)
        ensures
            self.model().valid_id(id) ==> (r matches Ok(c) && c@ == self.model().seqs[
                id as int
            ].follow_ups),
            !self.model().valid_id(id) ==> r == Err::<&Vec<SequenceId>, TreeError>(
                TreeError::UnknownSequence(id),
            ),
    {
        match self.get(id) {
            Ok(q) => Ok(q.follow_ups()),
            Err(e) => Err(e),
        }
    }

    /// The moves of sequence `id`.
    pub fn moves(&self, id: SequenceId) -> (r: Result<&MoveVec<MoveRecord>, TreeError>)
        ensures
            self.model().valid_id(id) ==> (r matches Ok(v) && v.start() == self.model().seqs[
                id as int
            ].start && v.items().map_values(|m: MoveRecord| m@) == self.model().seqs[
                id as int
            ].moves),
            !self.model().valid_id(id) ==> r == Err::<&MoveVec<MoveRecord>, TreeError>(
                TreeError::UnknownSequence(id),
            ),
    {
        match self.get(id) {
            Ok(q) => Ok(q.moves()),
            Err(e) => Err(e),
        }
    }

    /// Makes sequence `id` current, or reports `UnknownSequence` and changes
    /// nothing.
    pub fn set_current(&mut self, id: SequenceId) -> (r: Result<(), TreeError>)
        requires
            old(self).wf(),
        ensures
            final(self).wf(),
            final(self).same_settings(old(self)),
            old(self).model().valid_id(id) ==> (r is Ok && final(self).model() == (TreeModel {
                current: id,
                ..old(self).model()
            })),
            !old(self).model().valid_id(id) ==> (r == Err::<(), TreeError>(
                TreeError::UnknownSequence(id),
            ) && final(self).model() == old(self).model()),
    {
        if id < self.seqs.len() {
            self.current_sequence = id;
            Ok(())
        } else {
            Err(TreeError::UnknownSequence(id))
        }
    }

    /// Reads move numbers from character columns `from .. to` from now on.
    pub fn set_columns(&mut self, from: usize, to: usize)
        ensures
            final(self).column_from() == from,
            final(self).column_to() == to,
            final(self).model() == old(self).model(),
            final(self).name() == old(self).name(),
    {
        self.line_num_from = from;
        self.line_num_to = to;
    }

    /// The character columns `(from, to)` in which a line's move number
    /// stands.
    pub fn columns(&self) -> (r: (usize, usize))
        ensures
            r.0 == self.column_from(),
            r.1 == self.column_to(),
    {
        (self.line_num_from, self.line_num_to)
    }

    /// Makes a new empty sequence starting at `start_move_number`, child of
    /// the current one, and makes it current. It joins no follow-up list.
    pub fn create_sequence(&mut self, start_move_number: usize) -> (id: SequenceId)
        requires
            old(self).wf(),
        ensures
            final(self).wf(),
            final(self).model() == old(self).model().created(start_move_number as int),
            id == old(self).model().seqs.len(),
            final(self).same_settings(old(self)),
    {
        let ghost m = self.model();
        let parent = self.current_sequence;
        let seq = Sequence {
            moves: MoveVec::new(Vec::new(), start_move_number),
            follow_ups: Vec::new(),
            parent,
        };
        let id = self.seqs.len();
        self.seqs.push(seq);
        self.current_sequence = id;
        proof {
            assert(self.seqs@.last()@.moves =~= Seq::<RecordModel>::empty());
            assert(self.seqs.len() <= usize::MAX);
            assert(self.model().seqs =~= m.created(start_move_number as int).seqs);
            lemma_created_wf(m, start_move_number as int);
        }
        id
    }

    /// Adds a record to the current sequence: a recorded move goes after its
    /// last move; an unrecognized line changes nothing.
    pub fn add_move(&mut self, game_move: MoveRecord)
        requires
            old(self).wf(),
        ensures
            final(self).wf(),
            final(self).model() == old(self).model().appended(game_move@),
            final(self).same_settings(old(self)),
    {
        let ghost m = self.model();
        let ghost r = game_move@;
        if game_move.is_recorded() {
            let cur = self.current_sequence;
            let ghost before = self.seqs@[cur as int];
            self.seqs[cur].moves.push(game_move);
            proof {
                let after = self.seqs@[cur as int];
                assert(after@.moves =~= before@.moves.push(r));
                assert(self.model().seqs =~= m.appended(r).seqs);
            }
        }
        proof {
            lemma_appended_wf(m, r);
        }
    }

    /// Follows parents from `start_sequence` to the root and returns it. An
    /// identifier that names no sequence is returned as it is.
    pub fn find_root(&self, start_sequence: SequenceId) -> (r: SequenceId)
        requires
            self.wf(),
        ensures
            r == if self.model().valid_id(start_sequence) {
                ROOT
            } else {
                start_sequence
            },
    {
        if start_sequence >= self.seqs.len() {
            return start_sequence;
        }
        let mut current_id = start_sequence;
        while self.seqs[current_id].parent != current_id
            invariant
                self.wf(),
                current_id < self.seqs@.len(),
            decreases current_id,
        {
            assert(self.model().seqs[current_id as int].parent == self.seqs@[current_id as int].parent);
            current_id = self.seqs[current_id].parent;
        }
        assert(self.model().seqs[current_id as int].parent == self.seqs@[current_id as int].parent);
        current_id
    }

    /// The first sequence from the current one up to the root that holds
    /// move `p`.
    fn find_owner(&self, p: usize) -> (r: Option<SequenceId>)
        requires
            self.wf(),
        ensures
            match r {
                Some(s) => self.model().owner(p as int) == Some(s as nat),
                None => self.model().owner(p as int) is None,
            },
    {
        let mut cur = self.current_sequence;
        loop
            invariant
                self.wf(),
                cur < self.seqs@.len(),
                self.model().owner_from(cur as nat, p as int) == self.model().owner(p as int),
            decreases cur,
        {
            let seq = &self.seqs[cur];
            assert(self.model().seqs[cur as int] == seq@);
            if seq.moves.covers_move(p) {
                return Some(cur);
            }
            if cur == ROOT {
                return None;
            }
            cur = seq.parent;
        }
    }

    /// Hangs a new empty variation starting at move `b` off sequence `s`,
    /// which holds move `b - 1`, cutting `s` there if it reaches further.
    fn splice(&mut self, s: SequenceId, b: usize) -> (v: SequenceId)
        requires
            old(self).wf(),
            s < old(self).model().seqs.len(),
            old(self).model().seqs[s as int].covers(b - 1),
        ensures
            final(self).model() == old(self).model().branched(s as nat, b as int),
            v == old(self).model().variation_id(s as nat, b as int),
            final(self).same_settings(old(self)),
    {
        let ghost m = self.model();
        let ghost old_s = self.seqs@[s as int];
        let n = self.seqs.len();
        assert(old_s@ == m.seqs[s as int]);
        let rest = self.seqs[s].moves.split_at_move(b);
        if rest.len() > 0 {
            let mut old_follow: Vec<SequenceId> = Vec::new();
            std::mem::swap(&mut self.seqs[s].follow_ups, &mut old_follow);
            self.seqs.push(Sequence { moves: MoveVec::new(rest, b), follow_ups: old_follow, parent: s });
            self.seqs[s].follow_ups.push(n);
        }
        let v = self.seqs.len();
        self.seqs.push(Sequence { moves: MoveVec::new(Vec::new(), b), follow_ups: Vec::new(), parent: s });
        self.seqs[s].follow_ups.push(v);
        self.current_sequence = v;
        proof {
            let m2 = m.branched(s as nat, b as int);
            assert(m.splits(s as nat, b as int) == (rest@.len() > 0));
            if rest@.len() > 0 {
                assert(self.seqs@[s as int]@.moves =~= m2.seqs[s as int].moves);
                assert(self.seqs@[s as int]@.follow_ups =~= m2.seqs[s as int].follow_ups);
                assert(self.seqs@[n as int]@.moves =~= m2.seqs[n as int].moves);
                assert(self.seqs@[v as int]@.moves =~= m2.seqs[v as int].moves);
            } else {
                assert(self.seqs@[s as int]@.follow_ups =~= m2.seqs[s as int].follow_ups);
                assert(self.seqs@[v as int]@.moves =~= m2.seqs[v as int].moves);
            }
            assert(self.model().seqs =~= m2.seqs);
        }
        v
    }

    /// Starts a variation whose first move is move `start_move_number`. The
    /// sequence it branches off is the first one, from the current sequence
    /// up to the root, that holds move `start_move_number - 1`; where none
    /// does, nothing changes and the result is `OrphanBranchPoint`. Otherwise
    /// that sequence is cut after that move if it reaches further (see
    /// `TreeModel::branched`), and the new empty variation, whose identifier
    /// is returned, becomes current.
    pub fn add_variation(&mut self, start_move_number: usize) -> (r: Result<SequenceId, TreeError>)
        requires
            old(self).wf(),
        ensures
            final(self).wf(),
            final(self).same_settings(old(self)),
            match old(self).model().owner(start_move_number - 1) {
                None => {
                    &&& r == Err::<SequenceId, TreeError>(
                        TreeError::OrphanBranchPoint(start_move_number),
                    )
                    &&& final(self).model() == old(self).model()
                },
                Some(s) => {
                    &&& r == Ok::<SequenceId, TreeError>(
                        old(self).model().variation_id(s, start_move_number as int) as SequenceId,
                    )
                    &&& final(self).model() == old(self).model().branched(
                        s,
                        start_move_number as int,
                    )
                },
            },
    {
        let ghost m = self.model();
        if start_move_number == 0 {
            proof {
                lemma_owner_negative(m, m.current as nat, -1);
            }
            return Err(TreeError::OrphanBranchPoint(start_move_number));
        }
        let parent_move_number = start_move_number - 1;
        proof {
            lemma_owner_found(m, m.current as nat, parent_move_number as int);
        }
        match self.find_owner(parent_move_number) {
            None => Err(TreeError::OrphanBranchPoint(start_move_number)),
            Some(s) => {
                let v = self.splice(s, start_move_number);
                proof {
                    assert(self.seqs.len() <= usize::MAX);
                    lemma_branched_wf(m, s as nat, start_move_number as int);
                }
                Ok(v)
            },
        }
    }
}

} // verus!
