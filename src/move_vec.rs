use vstd::prelude::*;

verus! {

/// A run of moves that occupies consecutive move numbers: the item at index
/// `k` stands at move number `start_move_number + k`.
pub struct MoveVec<T> {
    moves: Vec<T>,
    start_move_number: usize,
}

impl<T> MoveVec<T> {
    /// The items, in order.
    pub closed spec fn items(&self) -> Seq<T> {
        self.moves@
    }

    /// The move number of the first item.
    pub closed spec fn start(&self) -> int {
        self.start_move_number as int
    }

    /// Whether move number `n` falls inside this run.
    pub open spec fn covers(&self, n: int) -> bool {
        self.start() <= n < self.start() + self.items().len()
    }

    pub fn new(moves: Vec<T>, start_move_number: usize) -> (r: Self)
        ensures
            r.items() == moves@,
            r.start() == start_move_number,
    {
        MoveVec { moves, start_move_number }
    }

    pub fn len(&self) -> (r: usize)
        ensures
            r == self.items().len(),
    {
        self.moves.len()
    }

    pub fn is_empty(&self) -> (r: bool)
        ensures
            r == (self.items().len() == 0),
    {
        self.moves.len() == 0
    }

    pub fn start_move_number(&self) -> (r: usize)
        ensures
            r == self.start(),
    {
        self.start_move_number
    }

    /// The items as a vector, in order.
    pub fn as_vec(&self) -> (r: &Vec<T>)
        ensures
            r@ == self.items(),
    {
        &self.moves
    }

    /// Whether `move_number` falls inside this run, computed without overflow.
    pub fn covers_move(&self, move_number: usize) -> (r: bool)
        ensures
            r == self.covers(move_number as int),
    {
        move_number >= self.start_move_number && move_number - self.start_move_number
            < self.moves.len()
    }

    /// The item recorded at absolute move number `move_number`, if the run
    /// reaches it.
    pub fn at_move(&self, move_number: usize) -> (r: Option<&T>)
        ensures
            self.covers(move_number as int) ==> (r matches Some(x) && *x == self.items()[move_number
                - self.start()]),
            !self.covers(move_number as int) ==> r is None,
    {
        if self.covers_move(move_number) {
            Some(&self.moves[move_number - self.start_move_number])
        } else {
            None
        }
    }

    /// Appends an item after the last one.
    pub fn push(&mut self, item: T)
        ensures
            final(self).items() == old(self).items().push(item),
            final(self).start() == old(self).start(),
    {
        self.moves.push(item);
    }

    /// Cuts the run so that it ends just before `move_number` and returns the
    /// items from `move_number` on; where the run ends before `move_number`
    /// nothing is cut and the result is empty.
    pub fn split_at_move(&mut self, move_number: usize) -> (rest: Vec<T>)
        requires
            old(self).start() <= move_number,
        ensures
            final(self).start() == old(self).start(),
            ({
                let k = move_number - old(self).start();
                if k < old(self).items().len() {
                    &&& final(self).items() == old(self).items().subrange(0, k)
                    &&& rest@ == old(self).items().subrange(k, old(self).items().len() as int)
                } else {
                    &&& final(self).items() == old(self).items()
                    &&& rest@.len() == 0
                }
            }),
    {
        let split_index = move_number - self.start_move_number;
        if split_index >= self.moves.len() {
            return Vec::new();
        }
        self.moves.split_off(split_index)
    }
}

} // verus!
