//! The outcome of resolving a question.
use crate::record;
use crate::record::{Record, RecordView};
use vstd::prelude::*;

verus! {

/// How resolving a question ended.
#[derive(Debug, Clone, Copy, PartialEq, Eq, Structural)]
pub enum ResolutionStatus {
    NoError,
    NxDomain,
    ServFail,
    Timeout,
    Malformed,
}

/// What resolving a question gave.
#[derive(Debug)]
pub struct ResolutionOutcome {
    pub status: ResolutionStatus,
    pub answers: Vec<Record>,
    pub authorities: Vec<Record>,
}

/// What a [`ResolutionOutcome`] stands for.
pub struct OutcomeView {
    pub status: ResolutionStatus,
    pub answers: Seq<RecordView>,
    pub authorities: Seq<RecordView>,
}

impl View for ResolutionOutcome {
    type V = OutcomeView;

    open spec fn view(&self) -> OutcomeView {
        OutcomeView {
            status: self.status,
            answers: record::records_view(self.answers@),
            authorities: record::records_view(self.authorities@),
        }
    }
}

impl Clone for ResolutionOutcome {
    fn clone(&self) -> (r: Self)
        ensures
            r@ == self@,
    {
        ResolutionOutcome {
            status: self.status,
            answers: record::clone_records(&self.answers),
            authorities: record::clone_records(&self.authorities),
        }
    }
}

impl OutcomeView {
    /// The records can stand in a message.
    pub open spec fn wf(self) -> bool {
        record::records_wf(self.answers) && record::records_wf(self.authorities)
    }

    /// An outcome without records.
    pub open spec fn failed(status: ResolutionStatus) -> OutcomeView {
        OutcomeView { status, answers: seq![], authorities: seq![] }
    }
}

impl ResolutionOutcome {
    /// The question was answered.
    pub fn noerror(answers: Vec<Record>, authorities: Vec<Record>) -> (r: Self)
        ensures
            r@ == (OutcomeView {
                status: ResolutionStatus::NoError,
                answers: record::records_view(answers@),
                authorities: record::records_view(authorities@),
            }),
    {
        ResolutionOutcome { status: ResolutionStatus::NoError, answers, authorities }
    }

    /// The question was not answered.
    pub fn with_status(status: ResolutionStatus, authorities: Vec<Record>) -> (r: Self)
        ensures
            r@ == (OutcomeView {
                status,
                answers: seq![],
                authorities: record::records_view(authorities@),
            }),
    {
        let r = ResolutionOutcome { status, answers: Vec::new(), authorities };
        assert(r@.answers =~= seq![]);
        r
    }
}

/// What outcomes stand for leaves nothing of them out; a failed one has its status and no records;
/// and an outcome can stand in a message exactly if each of its records can.
pub proof fn law_views_of_outcomes_leave_nothing_out(
    outcome: ResolutionOutcome,
    view: OutcomeView,
    status: ResolutionStatus,
)
    ensures
        outcome@.status == outcome.status,
        outcome@.answers == record::records_view(outcome.answers@),
        outcome@.authorities == record::records_view(outcome.authorities@),
        OutcomeView::failed(status).status == status,
        OutcomeView::failed(status).answers.len() == 0,
        OutcomeView::failed(status).authorities.len() == 0,
        view.wf() <==> (forall|i: int|
            0 <= i < view.answers.len() ==> (#[trigger] view.answers[i]).wf()) && (forall|i: int|
            0 <= i < view.authorities.len() ==> (#[trigger] view.authorities[i]).wf()),
{
}

} // verus!
