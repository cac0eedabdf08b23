//! Leaving the program: the user is asked, and then every workspace.

use vstd::prelude::*;
use crate::order::{comes_before, lemma_stable_order, sort_positions, stable_order};
use crate::restore::as_ints;

verus! {

/// How far leaving has come. Windows are counted in the order in which they are asked.
#[derive(Debug, Clone, Copy, PartialEq, Eq, Structural)]
pub enum QuitStep {
    /// The user is asked.
    Confirming,
    /// A window is asked for its workspaces.
    Listing { window: usize },
    /// A workspace of a window is asked, out of so many.
    Asking { window: usize, workspace: usize, count: usize },
    Done,
}

/// What is to be done next.
#[derive(Debug, Clone, Copy, PartialEq, Eq, Structural)]
pub enum QuitAction {
    /// Ask in that window: "Are you sure you want to quit?", with "Quit" and "Cancel".
    Confirm { window: usize },
    /// Count the workspaces of that window.
    ListWorkspaces { window: usize },
    /// Bring that workspace to the front and let it prepare to close.
    PrepareToClose { window: usize, workspace: usize },
    Quit,
    /// The program goes on.
    Stay,
}

/// What came of it.
#[derive(Debug, Clone, Copy, PartialEq, Eq, Structural)]
pub enum QuitReply {
    /// The window or the workspace is gone.
    Gone,
    /// The button that was chosen, if any was.
    Chosen(Option<usize>),
    /// So many workspaces.
    Count(usize),
    /// Whether the workspace may close.
    MayClose(bool),
    /// It could not be found out.
    Failed,
}

/// The windows in the order in which they are asked: the active ones and those that cannot tell
/// come first.
pub open spec fn asking_order(active: Seq<Option<bool>>) -> Seq<int> {
    stable_order(active_keys(active))
}

pub open spec fn active_keys(active: Seq<Option<bool>>) -> Seq<usize> {
    active.map_values(
        |a: Option<bool>|
            if a == Some(false) {
                1usize
            } else {
                0usize
            },
    )
}

/// Goes on with a window, or leaves where there is none left.
pub open spec fn ask_window(order: Seq<usize>, window: int) -> (QuitStep, QuitAction) {
    if window < order.len() {
        (
            QuitStep::Listing { window: window as usize },
            QuitAction::ListWorkspaces { window: order[window] },
        )
    } else {
        (QuitStep::Done, QuitAction::Quit)
    }
}

/// Goes on with a workspace of a window, or with the next window.
pub open spec fn ask_workspace(order: Seq<usize>, window: int, workspace: int, count: int) -> (QuitStep, QuitAction) {
    if workspace < count {
        (
            QuitStep::Asking { window: window as usize, workspace: workspace as usize, count: count as usize },
            QuitAction::PrepareToClose { window: order[window], workspace: workspace as usize },
        )
    } else {
        ask_window(order, window + 1)
    }
}

/// The step and action that follow a reply.
pub open spec fn quit_next(order: Seq<usize>, step: QuitStep, reply: QuitReply) -> (QuitStep, QuitAction) {
    match (step, reply) {
        (QuitStep::Confirming, QuitReply::Chosen(Some(0))) => ask_window(order, 0),
        (QuitStep::Confirming, QuitReply::Gone) => ask_window(order, 0),
        (QuitStep::Listing { window }, QuitReply::Count(count)) => ask_workspace(
            order,
            window as int,
            0,
            count as int,
        ),
        (QuitStep::Listing { window }, QuitReply::Gone) => ask_window(order, window + 1),
        (QuitStep::Asking { window, workspace, count }, QuitReply::MayClose(true)) => ask_workspace(
            order,
            window as int,
            workspace + 1,
            count as int,
        ),
        (QuitStep::Asking { window, workspace, count }, QuitReply::Gone) => ask_workspace(
            order,
            window as int,
            workspace + 1,
            count as int,
        ),
        _ => (QuitStep::Done, QuitAction::Stay),
    }
}

/// The step is about a window and a workspace that are there.
pub open spec fn quit_step_valid(order: Seq<usize>, step: QuitStep) -> bool {
    match step {
        QuitStep::Confirming => order.len() > 0,
        QuitStep::Listing { window } => window < order.len(),
        QuitStep::Asking { window, workspace, count } => window < order.len() && workspace < count,
        QuitStep::Done => true,
    }
}

/// An attempt to leave the program.
#[derive(Debug)]
pub struct QuitRun {
    pub order: Vec<usize>,
    pub step: QuitStep,
}

fn ask_window_now(order: &Vec<usize>, window: usize) -> (r: (QuitStep, QuitAction))
    ensures
        r == ask_window(order@, window as int),
        quit_step_valid(order@, r.0),
{
    if window < order.len() {
        (QuitStep::Listing { window }, QuitAction::ListWorkspaces { window: order[window] })
    } else {
        (QuitStep::Done, QuitAction::Quit)
    }
}

fn ask_workspace_now(order: &Vec<usize>, window: usize, workspace: usize, count: usize) -> (r: (QuitStep, QuitAction))
    requires
        window < order@.len(),
    ensures
        r == ask_workspace(order@, window as int, workspace as int, count as int),
        quit_step_valid(order@, r.0),
{
    let total: usize = order.len();
    assert(window < total);
    if workspace < count {
        (
            QuitStep::Asking { window, workspace, count },
            QuitAction::PrepareToClose { window: order[window], workspace },
        )
    } else {
        ask_window_now(order, window + 1)
    }
}

impl QuitRun {
    pub open spec fn well_formed(&self) -> bool {
        quit_step_valid(self.order@, self.step)
    }

    /// Starts to leave, with the windows and whether each is active. While the user is already
    /// being asked, nothing happens.
    pub fn quit(already_asking: bool, should_confirm: bool, active: &Vec<Option<bool>>) -> (r: (QuitRun, QuitAction))
        ensures
            r.0.well_formed(),
            as_ints(r.0.order@) == asking_order(active@),
            (r.0.step, r.1) == if already_asking {
                (QuitStep::Done, QuitAction::Stay)
            } else if should_confirm && active@.len() > 0 {
                (QuitStep::Confirming, QuitAction::Confirm { window: r.0.order@[0] })
            } else {
                ask_window(r.0.order@, 0)
            },
    {
        let mut keys: Vec<usize> = Vec::new();
        let mut i: usize = 0;
        while i < active.len()
            invariant
                i <= active@.len(),
                keys@ == active_keys(active@).take(i as int),
            decreases active@.len() - i,
        {
            let key: usize = match active[i] {
                Some(false) => 1,
                _ => 0,
            };
            keys.push(key);
            assert(keys@ =~= active_keys(active@).take(i + 1));
            i += 1;
        }
        assert(keys@ =~= active_keys(active@));
        let order = sort_positions(&keys);
        assert(as_ints(order@) =~= order@.map_values(|p: usize| p as int));
        if already_asking {
            return (QuitRun { order, step: QuitStep::Done }, QuitAction::Stay);
        }
        if should_confirm && order.len() > 0 {
            let window = order[0];
            return (QuitRun { order, step: QuitStep::Confirming }, QuitAction::Confirm { window });
        }
        let (step, action) = ask_window_now(&order, 0);
        (QuitRun { order, step }, action)
    }

    /// Whether another attempt to leave is to be ignored.
    pub fn is_asking(&self) -> (r: bool)
        ensures
            r == (self.step == QuitStep::Confirming),
    {
        match self.step {
            QuitStep::Confirming => true,
            _ => false,
        }
    }

    /// The action that follows a reply.
    pub fn next(&mut self, reply: QuitReply) -> (r: QuitAction)
        requires
            old(self).well_formed(),
        ensures
            final(self).well_formed(),
            final(self).order == old(self).order,
            (final(self).step, r) == quit_next(old(self).order@, old(self).step, reply),
    {
        let total: usize = self.order.len();
        assert(total == self.order@.len());
        let (step, action) = match (self.step, reply) {
            (QuitStep::Confirming, QuitReply::Chosen(Some(0))) => ask_window_now(&self.order, 0),
            (QuitStep::Confirming, QuitReply::Gone) => ask_window_now(&self.order, 0),
            (QuitStep::Listing { window }, QuitReply::Count(count)) => ask_workspace_now(
                &self.order,
                window,
                0,
                count,
            ),
            (QuitStep::Listing { window }, QuitReply::Gone) => ask_window_now(&self.order, window + 1),
            (QuitStep::Asking { window, workspace, count }, QuitReply::MayClose(true)) => ask_workspace_now(
                &self.order,
                window,
                workspace + 1,
                count,
            ),
            (QuitStep::Asking { window, workspace, count }, QuitReply::Gone) => ask_workspace_now(
                &self.order,
                window,
                workspace + 1,
                count,
            ),
            _ => (QuitStep::Done, QuitAction::Stay),
        };
        self.step = step;
        action
    }
}

/// A workspace that may not close, and a user who does not choose to quit, keep the program going.
pub proof fn lemma_refusal_stays(order: Seq<usize>, step: QuitStep, reply: QuitReply)
    requires
        reply == QuitReply::MayClose(false) || reply == QuitReply::Failed || (reply matches QuitReply::Chosen(
            choice,
        ) && choice != Some(0usize)),
    ensures
        quit_next(order, step, reply) == (QuitStep::Done, QuitAction::Stay),
{
}

/// The program is left only from the last window: before it, every reply leads to another question
/// or to staying.
pub proof fn lemma_quit_from_last(order: Seq<usize>, step: QuitStep, reply: QuitReply)
    requires
        quit_step_valid(order, step),
        quit_next(order, step, reply).1 == QuitAction::Quit,
    ensures
        match step {
            QuitStep::Confirming => false,
            QuitStep::Listing { window } => window + 1 == order.len(),
            QuitStep::Asking { window, workspace, count } => window + 1 == order.len() && workspace + 1 == count,
            QuitStep::Done => false,
        },
{
}

/// What is left to ask: the windows, and the workspaces of the one that is being asked.
pub open spec fn questions_left(order: Seq<usize>, step: QuitStep) -> (int, int) {
    match step {
        QuitStep::Confirming => (order.len() + 1int, 0),
        QuitStep::Listing { window } => (order.len() - window, usize::MAX + 1),
        QuitStep::Asking { window, workspace, count } => (order.len() - window, count - workspace),
        QuitStep::Done => (0, 0),
    }
}

/// Every reply leaves less to ask.
pub proof fn lemma_quit_ends(order: Seq<usize>, step: QuitStep, reply: QuitReply)
    requires
        quit_step_valid(order, step),
        order.len() <= usize::MAX,
        step != QuitStep::Done,
    ensures
        ({
            let before = questions_left(order, step);
            let after = questions_left(order, quit_next(order, step, reply).0);
            0 <= after.0 && 0 <= after.1 && (after.0 < before.0 || (after.0 == before.0 && after.1 < before.1))
        }),
{
}

/// Windows that are active, or that cannot tell, are asked before those that are not, and otherwise in
/// their order. Every window is asked, and none twice.
pub proof fn lemma_asking_order(active: Seq<Option<bool>>)
    ensures
        ({
            let order = asking_order(active);
            &&& order.len() == active.len()
            &&& forall|w: int| 0 <= w < active.len() ==> #[trigger] order.contains(w)
            &&& forall|i: int, j: int|
                0 <= i < j < order.len() ==> {
                    ||| active[#[trigger] order[i]] != Some(false) && active[#[trigger] order[j]] == Some(false)
                    ||| (active[order[i]] == Some(false) <==> active[order[j]] == Some(false)) && order[i] < order[j]
                }
        }),
{
    let keys = active_keys(active);
    lemma_stable_order(keys);
    let order = asking_order(active);
    assert forall|i: int, j: int| 0 <= i < j < order.len() implies {
        ||| active[#[trigger] order[i]] != Some(false) && active[#[trigger] order[j]] == Some(false)
        ||| (active[order[i]] == Some(false) <==> active[order[j]] == Some(false)) && order[i] < order[j]
    } by {
        assert(comes_before(keys, order[i], order[j]));
        assert(0 <= order[i] < keys.len() && 0 <= order[j] < keys.len());
    }
}

/// Once the user has agreed, or has nothing to agree with, the windows are asked one after the other
/// for their workspaces, and the workspaces one after the other whether they may close. One that is
/// gone is passed over. When all have been asked the program is left.
pub proof fn lemma_quit_course(order: Seq<usize>, step: QuitStep, reply: QuitReply)
    requires
        quit_step_valid(order, step),
        order.len() < usize::MAX,
    ensures
        ({
            let next = quit_next(order, step, reply);
            let window_follows = |w: int|
                if w < order.len() {
                    next.0 == (QuitStep::Listing { window: w as usize }) && next.1 == (QuitAction::ListWorkspaces {
                        window: order[w],
                    })
                } else {
                    next.0 == QuitStep::Done && next.1 == QuitAction::Quit
                };
            &&& step == QuitStep::Confirming && (reply == QuitReply::Chosen(Some(0)) || reply == QuitReply::Gone)
                ==> window_follows(0)
            &&& step matches QuitStep::Listing { window } ==> (reply matches QuitReply::Count(count) ==> if count > 0 {
                next.0 == (QuitStep::Asking { window, workspace: 0, count }) && next.1 == (QuitAction::PrepareToClose {
                    window: order[window as int],
                    workspace: 0,
                })
            } else {
                window_follows(window + 1)
            })
            &&& step matches QuitStep::Listing { window } ==> reply == QuitReply::Gone ==> window_follows(window + 1)
            &&& step matches QuitStep::Asking { window, workspace, count } ==> (reply == QuitReply::MayClose(true)
                || reply == QuitReply::Gone) ==> if workspace + 1 < count {
                next.0 == (QuitStep::Asking { window, workspace: (workspace + 1) as usize, count }) && next.1 == (
                QuitAction::PrepareToClose { window: order[window as int], workspace: (workspace + 1) as usize })
            } else {
                window_follows(window + 1)
            }
        }),
{
}

} // verus!
