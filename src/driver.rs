use vstd::prelude::*;
use crate::record::{MoveRecord, RecordModel, parse_move, record_of};
use crate::tree::{
    DEFAULT_COLUMN_FROM,
    DEFAULT_COLUMN_TO,
    ParserContext,
    TreeModel,
    lemma_owner_negative,
};

verus! {

/// Where the line scanner stands.
#[derive(Clone, Copy, Debug, PartialEq, Eq, Structural)]
pub enum ParserState {
    /// Looking for the line that opens a section.
    AwaitingSection,
    /// Reading the moves of the main line.
    InMainLine,
    /// The next line is the first move of a variation.
    VariationStarting,
    /// Reading the moves of a variation.
    InVariationBody,
}

/// Why a record could not be read into a tree.
#[derive(Clone, Copy, Debug, PartialEq, Eq)]
pub enum IngestError {
    /// A variation begins at this move number, but no sequence on the way up
    /// from the current one holds the move before it.
    OrphanBranchPoint(i32),
}

/// The line prefixes that open a section.
pub struct SectionMarkers {
    main_line: String,
    variation: String,
}

/// The prefix of the line that opens the main line in the usual notation.
pub open spec fn kif_main_line_marker() -> Seq<char> {
    seq!['\u{624b}', '\u{6570}']
}

/// The prefix of the line that opens a variation in the usual notation.
pub open spec fn kif_variation_marker() -> Seq<char> {
    seq!['\u{5909}', '\u{5316}']
}

impl SectionMarkers {
    pub closed spec fn main_line_marker(&self) -> Seq<char> {
        self.main_line@
    }

    pub closed spec fn variation_marker(&self) -> Seq<char> {
        self.variation@
    }

    pub fn new(main_line: &str, variation: &str) -> (r: Self)
        ensures
            r.main_line_marker() == main_line@,
            r.variation_marker() == variation@,
    {
        SectionMarkers { main_line: main_line.to_owned(), variation: variation.to_owned() }
    }

    /// The markers of the usual notation.
    pub fn kif() -> (r: Self)
        ensures
            r.main_line_marker() == kif_main_line_marker(),
            r.variation_marker() == kif_variation_marker(),
    {
        let main_line = "\u{624b}\u{6570}";
        let variation = "\u{5909}\u{5316}";
        proof {
            reveal_strlit("\u{624b}\u{6570}");
            reveal_strlit("\u{5909}\u{5316}");
        }
        assert(main_line@ =~= kif_main_line_marker());
        assert(variation@ =~= kif_variation_marker());
        SectionMarkers::new(main_line, variation)
    }
}

/// Whether `line` begins with `prefix`.
pub open spec fn starts_with(line: Seq<char>, prefix: Seq<char>) -> bool {
    prefix.len() <= line.len() && line.subrange(0, prefix.len() as int) == prefix
}

pub fn has_prefix(line: &str, prefix: &str) -> (r: bool)
    ensures
        r == starts_with(line@, prefix@),
{
    let n = prefix.unicode_len();
    if n > line.unicode_len() {
        return false;
    }
    let mut i: usize = 0;
    while i < n
        invariant
            i <= n == prefix@.len() <= line@.len(),
            line@.subrange(0, i as int) == prefix@.subrange(0, i as int),
        decreases n - i,
    {
        if line.get_char(i) != prefix.get_char(i) {
            assert(line@.subrange(0, n as int)[i as int] != prefix@[i as int]);
            return false;
        }
        i = i + 1;
        assert(line@.subrange(0, i as int) =~= prefix@.subrange(0, i as int));
    }
    assert(prefix@.subrange(0, n as int) =~= prefix@);
    true
}

/// The state and tree after one line, or the move number of a variation
/// that cannot be placed.
pub open spec fn step_spec(
    state: ParserState,
    main_marker: Seq<char>,
    variation_marker: Seq<char>,
    from: int,
    to: int,
    m: TreeModel,
    line: Seq<char>,
) -> Result<(ParserState, TreeModel), int> {
    match state {
        ParserState::AwaitingSection => {
            let next = if starts_with(line, main_marker) {
                ParserState::InMainLine
            } else if starts_with(line, variation_marker) {
                ParserState::VariationStarting
            } else {
                ParserState::AwaitingSection
            };
            Ok((next, m))
        },
        ParserState::InMainLine | ParserState::InVariationBody => {
            if line.len() == 0 {
                Ok((ParserState::AwaitingSection, m))
            } else {
                Ok((state, m.appended(record_of(line, from, to))))
            }
        },
        ParserState::VariationStarting => {
            let r = record_of(line, from, to);
            match r {
                RecordModel::Recorded { number, .. } => match m.owner(number - 1) {
                    Some(s) => Ok((ParserState::InVariationBody, m.branched(s, number).appended(r))),
                    None => Err(number),
                },
                RecordModel::Unrecognized { .. } => Ok((ParserState::InVariationBody, m)),
            }
        },
    }
}

/// The state and tree after all of `lines`, or the move number of the first
/// variation that cannot be placed.
pub open spec fn run_spec(
    state: ParserState,
    main_marker: Seq<char>,
    variation_marker: Seq<char>,
    from: int,
    to: int,
    m: TreeModel,
    lines: Seq<Seq<char>>,
) -> Result<(ParserState, TreeModel), int>
    decreases lines.len(),
{
    if lines.len() == 0 {
        Ok((state, m))
    } else {
        match step_spec(state, main_marker, variation_marker, from, to, m, lines[0]) {
            Ok((next, m2)) => run_spec(
                next,
                main_marker,
                variation_marker,
                from,
                to,
                m2,
                lines.drop_first(),
            ),
            Err(n) => Err(n),
        }
    }
}

/// Reads the record of `line` with the move-number columns of `ctx`.
pub fn parse_number_from_line(line: &str, ctx: &ParserContext) -> (r: MoveRecord)
    ensures
        r@ == record_of(line@, ctx.column_from(), ctx.column_to()),
{
    let (from, to) = ctx.columns();
    parse_move(line, from, to)
}

/// One pass over the lines of a record, feeding a `ParserContext`.
pub struct Ingestion {
    state: ParserState,
    markers: SectionMarkers,
    context: ParserContext,
}

impl Ingestion {
    pub closed spec fn phase(&self) -> ParserState {
        self.state
    }

    pub closed spec fn marks(&self) -> &SectionMarkers {
        &self.markers
    }

    pub closed spec fn ctx(&self) -> &ParserContext {
        &self.context
    }

    pub open spec fn wf(&self) -> bool {
        self.ctx().wf()
    }

    /// What one line does to this pass, as `step_spec` gives it.
    pub open spec fn step_of(&self, line: Seq<char>) -> Result<(ParserState, TreeModel), int> {
        step_spec(
            self.phase(),
            self.marks().main_line_marker(),
            self.marks().variation_marker(),
            self.ctx().column_from(),
            self.ctx().column_to(),
            self.ctx().model(),
            line,
        )
    }

    /// A pass that starts by looking for a section.
    pub fn new(context: ParserContext, markers: SectionMarkers) -> (r: Self)
        requires
            context.wf(),
        ensures
            r.wf(),
            r.phase() == ParserState::AwaitingSection,
            *r.ctx() == context,
            r.marks().main_line_marker() == markers.main_line_marker(),
            r.marks().variation_marker() == markers.variation_marker(),
    {
        Ingestion { state: ParserState::AwaitingSection, markers, context }
    }

    pub fn state(&self) -> (r: ParserState)
        ensures
            r == self.phase(),
    {
        self.state
    }

    pub fn context(&self) -> (r: &ParserContext)
        ensures
            *r == *self.ctx(),
    {
        &self.context
    }

    pub fn into_context(self) -> (r: ParserContext)
        ensures
            r == *self.ctx(),
    {
        self.context
    }

    /// Takes the next line. A section marker opens a section; in a section a
    /// blank line closes it and any other line is a move for the current
    /// sequence; the first line of a variation section starts the variation
    /// at its own move number before it is added. A variation that cannot be
    /// placed is reported and leaves the tree as it was.
    pub fn feed_line(&mut self, line: &str) -> (r: Result<(), IngestError>)
        requires
            old(self).wf(),
        ensures
            final(self).wf(),
            final(self).marks() == old(self).marks(),
            final(self).ctx().same_settings(old(self).ctx()),
            match old(self).step_of(line@) {
                Ok((next, m)) => {
                    &&& r is Ok
                    &&& final(self).phase() == next
                    &&& final(self).ctx().model() == m
                },
                Err(n) => {
                    &&& r == Err::<(), IngestError>(IngestError::OrphanBranchPoint(n as i32))
                    &&& final(self).phase() == ParserState::InVariationBody
                    &&& final(self).ctx().model() == old(self).ctx().model()
                },
            },
    {
        match self.state {
            ParserState::AwaitingSection => {
                if has_prefix(line, self.markers.main_line.as_str()) {
                    self.state = ParserState::InMainLine;
                } else if has_prefix(line, self.markers.variation.as_str()) {
                    self.state = ParserState::VariationStarting;
                }
                Ok(())
            },
            ParserState::InMainLine | ParserState::InVariationBody => {
                if line.is_empty() {
                    self.state = ParserState::AwaitingSection;
                } else {
                    let record = parse_number_from_line(line, &self.context);
                    self.context.add_move(record);
                }
                Ok(())
            },
            ParserState::VariationStarting => {
                self.state = ParserState::InVariationBody;
                let record = parse_number_from_line(line, &self.context);
                match record.move_number() {
                    None => Ok(()),
                    Some(n) => {
                        if n < 1 {
                            proof {
                                let m = self.context.model();
                                lemma_owner_negative(m, m.current as nat, n - 1);
                            }
                            return Err(IngestError::OrphanBranchPoint(n));
                        }
                        match self.context.add_variation(n as usize) {
                            Err(_) => Err(IngestError::OrphanBranchPoint(n)),
                            Ok(_) => {
                                self.context.add_move(record);
                                Ok(())
                            },
                        }
                    },
                }
            },
        }
    }
}

/// Reads the lines of a record in the usual notation into a new context
/// named `main`, in one pass.
pub fn parse_lines(lines: &Vec<String>) -> (r: Result<ParserContext, IngestError>)
    ensures
        match run_spec(
            ParserState::AwaitingSection,
            kif_main_line_marker(),
            kif_variation_marker(),
            DEFAULT_COLUMN_FROM as int,
            DEFAULT_COLUMN_TO as int,
            TreeModel::initial(),
            lines@.map_values(|l: String| l@),
        ) {
            Ok((_, m)) => r matches Ok(ctx) && ctx.wf() && ctx.model() == m,
            Err(n) => r == Err::<ParserContext, IngestError>(IngestError::OrphanBranchPoint(n as i32)),
        },
{
    let ghost all = lines@.map_values(|l: String| l@);
    let context = ParserContext::new("main");
    let mut pass = Ingestion::new(context, SectionMarkers::kif());
    let mut i: usize = 0;
    assert(all.subrange(0, all.len() as int) =~= all);
    while i < lines.len()
        invariant
            pass.wf(),
            i <= lines@.len(),
            all == lines@.map_values(|l: String| l@),
            pass.marks().main_line_marker() == kif_main_line_marker(),
            pass.marks().variation_marker() == kif_variation_marker(),
            pass.ctx().column_from() == DEFAULT_COLUMN_FROM,
            pass.ctx().column_to() == DEFAULT_COLUMN_TO,
            run_spec(
                ParserState::AwaitingSection,
                kif_main_line_marker(),
                kif_variation_marker(),
                DEFAULT_COLUMN_FROM as int,
                DEFAULT_COLUMN_TO as int,
                TreeModel::initial(),
                all,
            ) == run_spec(
                pass.phase(),
                kif_main_line_marker(),
                kif_variation_marker(),
                DEFAULT_COLUMN_FROM as int,
                DEFAULT_COLUMN_TO as int,
                pass.ctx().model(),
                all.subrange(i as int, all.len() as int),
            ),
        decreases lines@.len() - i,
    {
        let ghost rest = all.subrange(i as int, all.len() as int);
        assert(rest[0] == lines@[i as int]@);
        assert(rest.drop_first() =~= all.subrange(i + 1, all.len() as int));
        match pass.feed_line(lines[i].as_str()) {
            Err(e) => {
                return Err(e);
            },
            Ok(()) => {},
        }
        i = i + 1;
    }
    assert(all.subrange(i as int, all.len() as int) =~= Seq::<Seq<char>>::empty());
    Ok(pass.into_context())
}

} // verus!
