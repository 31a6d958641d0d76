//! Guards: checks on what goes into and comes out of the agent.

use vstd::prelude::*;
use crate::text::strs;

verus! {

/// What a guard checks.
#[derive(Debug, Clone, Copy, PartialEq, Eq, Structural)]
pub enum GuardDirection {
    /// Input of the user.
    Input,
    /// Output of the model.
    Output,
    /// Parameters of a tool.
    ToolInput,
    /// Result of a tool.
    ToolOutput,
}

impl GuardDirection {
    /// The name of the direction.
    pub fn label(&self) -> (r: &'static str)
        ensures
            r@ == match self {
                GuardDirection::Input => "input"@,
                GuardDirection::Output => "output"@,
                GuardDirection::ToolInput => "tool_input"@,
                GuardDirection::ToolOutput => "tool_output"@,
            },
    {
        match self {
            GuardDirection::Input => "input",
            GuardDirection::Output => "output",
            GuardDirection::ToolInput => "tool_input",
            GuardDirection::ToolOutput => "tool_output",
        }
    }
}

/// Result of a check.
#[derive(Debug)]
pub enum GuardResult {
    /// Nothing was found.
    Pass,
    /// The content is blocked.
    Block { reason: String },
    /// The content is let through with warnings.
    Warn { reasons: Vec<String> },
}

/// What a result holds.
pub enum GuardView {
    Pass,
    Block(Seq<char>),
    Warn(Seq<Seq<char>>),
}

impl View for GuardResult {
    type V = GuardView;

    open spec fn view(&self) -> GuardView {
        match self {
            GuardResult::Pass => GuardView::Pass,
            GuardResult::Block { reason } => GuardView::Block(reason@),
            GuardResult::Warn { reasons } => GuardView::Warn(strs(reasons@)),
        }
    }
}

impl GuardResult {
    /// Whether the content is blocked.
    pub fn is_blocked(&self) -> (r: bool)
        ensures
            r == (self@ is Block),
    {
        matches!(self, GuardResult::Block { .. })
    }
}

/// What a guard said: its name, and its result or the message of its error.
pub struct GuardReport {
    pub guard: String,
    pub outcome: Result<GuardResult, String>,
}

/// The warnings that a report adds.
pub open spec fn warnings_of(r: GuardReport) -> Seq<Seq<char>> {
    match r.outcome {
        Ok(g) => match g@ {
            GuardView::Warn(w) => w,
            _ => Seq::empty(),
        },
        Err(e) => seq![r.guard@ + " error: "@ + e@],
    }
}

/// Whether a report blocks.
pub open spec fn blocks(r: GuardReport) -> bool {
    r.outcome matches Ok(g) && g@ is Block
}

/// The warnings of all reports, in order.
pub open spec fn all_warnings(reports: Seq<GuardReport>) -> Seq<Seq<char>>
    decreases reports.len(),
{
    if reports.len() == 0 {
        Seq::empty()
    } else {
        all_warnings(reports.drop_last()) + warnings_of(reports.last())
    }
}

/// Whether report `i` is the first that blocks.
pub open spec fn first_block(reports: Seq<GuardReport>, i: int) -> bool {
    &&& 0 <= i < reports.len()
    &&& blocks(reports[i])
    &&& forall|k: int| 0 <= k < i ==> !blocks(#[trigger] reports[k])
}

/// What the guards say together, in the order in which they were added: the first that blocks
/// decides; else all warnings count, a guard that failed being one.
pub fn combine_reports(reports: Vec<GuardReport>) -> (r: GuardResult)
    ensures
        match r@ {
            GuardView::Block(reason) => exists|i: int| #[trigger]
                first_block(reports@, i) && reports@[i].outcome->Ok_0@ == GuardView::Block(reason),
            GuardView::Warn(w) => w == all_warnings(reports@) && w.len() > 0 && (forall|k: int|
                0 <= k < reports@.len() ==> !blocks(#[trigger] reports@[k])),
            GuardView::Pass => all_warnings(reports@).len() == 0 && (forall|k: int|
                0 <= k < reports@.len() ==> !blocks(#[trigger] reports@[k])),
        },
{
    let mut warnings: Vec<String> = Vec::new();
    let mut i: usize = 0;
    assert(reports@.take(0) =~= Seq::<GuardReport>::empty());
    assert(strs(warnings@) =~= Seq::<Seq<char>>::empty());
    while i < reports.len()
        invariant
            i <= reports.len(),
            forall|k: int| 0 <= k < i ==> !blocks(#[trigger] reports@[k]),
            strs(warnings@) == all_warnings(reports@.take(i as int)),
        decreases reports.len() - i,
    {
        let ghost prev = strs(warnings@);
        proof {
            let t = reports@.take(i + 1);
            assert(t.drop_last() =~= reports@.take(i as int));
            assert(t.last() == reports@[i as int]);
        }
        match &reports[i].outcome {
            Ok(GuardResult::Block { reason }) => {
                assert(first_block(reports@, i as int));
                return GuardResult::Block { reason: reason.clone() };
            },
            Ok(GuardResult::Warn { reasons }) => {
                let copied = crate::lists::copy_strings(reasons);
                crate::text::extend(&mut warnings, copied);
            },
            Ok(GuardResult::Pass) => {
                assert(prev + Seq::<Seq<char>>::empty() =~= prev);
            },
            Err(e) => {
                let mut m = reports[i].guard.clone();
                m.push_str(" error: ");
                m.push_str(e.as_str());
                crate::text::add_to(&mut warnings, m.as_str());
                assert(prev.push(m@) =~= prev + seq![m@]);
            },
        }
        i = i + 1;
    }
    assert(reports@.take(reports@.len() as int) =~= reports@);
    if warnings.len() > 0 {
        GuardResult::Warn { reasons: warnings }
    } else {
        GuardResult::Pass
    }
}

/// The warnings of guards are those of the first guards followed by those of the others. A guard that
/// failed adds one warning, which names it and says what went wrong; one that warns adds its
/// reasons; and one that passes adds none.
pub proof fn law_every_warning_is_kept(a: Seq<GuardReport>, b: Seq<GuardReport>, r: GuardReport)
    ensures
        all_warnings(a + b) == all_warnings(a) + all_warnings(b),
        all_warnings(seq![r]) == match r.outcome {
            Ok(GuardResult::Warn { reasons }) => strs(reasons@),
            Ok(_) => Seq::empty(),
            Err(e) => seq![r.guard@ + " error: "@ + e@],
        },
    decreases b.len(),
{
    if b.len() == 0 {
        assert(a + b =~= a);
        assert(all_warnings(a) + all_warnings(b) =~= all_warnings(a));
    } else {
        law_every_warning_is_kept(a, b.drop_last(), r);
        assert((a + b).drop_last() =~= a + b.drop_last());
        assert(all_warnings(a) + all_warnings(b.drop_last()) + warnings_of(b.last())
            =~= all_warnings(a) + (all_warnings(b.drop_last()) + warnings_of(b.last())));
    }
    let one = seq![r];
    assert(one.drop_last() =~= Seq::<GuardReport>::empty());
    assert(all_warnings(one.drop_last()) =~= Seq::<Seq<char>>::empty());
    assert(all_warnings(one) =~= warnings_of(r));
}

/// A report blocks exactly where its guard says so; a guard that failed does not.
pub proof fn law_only_guards_that_say_so_block(r: GuardReport)
    ensures
        blocks(r) <==> match r.outcome {
            Ok(GuardResult::Block { .. }) => true,
            _ => false,
        },
{
}

} // verus!
