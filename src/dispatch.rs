//! Work units for the worker pool, the controller's dispatch decision, and
//! the per-cycle record of returned bands.
use vstd::prelude::*;
use crate::field::{advanced, band_fits, reinitialized, Field, BATCH};
use crate::zoom::Viewport;

verus! {

/// One unit of work handed to a worker, carrying the band it owns while the
/// work runs.
pub enum Task {
    /// Run one batch on the band.
    Advance(Field),
    /// Reset the band to the given view.
    Reanchor(Field, Viewport),
    /// Stop the worker.
    Terminate,
}

/// A task that a worker can carry out.
pub open spec fn task_ok(t: Task) -> bool {
    match t {
        Task::Advance(f) => f.wf() && f.steps_done <= u64::MAX - BATCH,
        Task::Reanchor(f, v) => f.shape_ok() && band_fits(v, f.width as int, f.band_index as int, f.rows as int),
        Task::Terminate => true,
    }
}

/// The task for a band that has come back: a band whose view differs from
/// the current one is re-anchored to it, any other runs a batch.
pub open spec fn dispatch_spec(f: Field, current: Viewport) -> Task {
    if f.view != current {
        Task::Reanchor(f, current)
    } else {
        Task::Advance(f)
    }
}

/// Decides the next task for a band that has come back.
pub fn dispatch(field: Field, current: Viewport) -> (r: Task)
    ensures
        r == dispatch_spec(field, current),
{
    if field.view != current {
        Task::Reanchor(field, current)
    } else {
        Task::Advance(field)
    }
}

/// Carries out a task: the band afterwards, or `None` for `Terminate`.
pub fn perform(task: Task) -> (r: Option<Field>)
    requires
        task_ok(task),
    ensures
        match task {
            Task::Advance(f) => r is Some && advanced(f, r->0) && r->0.wf(),
            Task::Reanchor(f, v) => r is Some && reinitialized(f, r->0, v) && r->0.wf(),
            Task::Terminate => r is None,
        },
{
    match task {
        Task::Terminate => None,
        Task::Advance(mut f) => {
            f.advance();
            Some(f)
        },
        Task::Reanchor(mut f, v) => {
            f.reinitialize(v);
            Some(f)
        },
    }
}

/// A band that was re-anchored to one view while the current view moved on
/// to another is re-anchored again, to the new view, at its next dispatch.
pub proof fn raced_reanchor_is_redispatched(f0: Field, f1: Field, v: Viewport, current: Viewport)
    requires
        reinitialized(f0, f1, v),
        current != v,
    ensures
        dispatch_spec(f1, current) == Task::Reanchor(f1, current),
{
}

/// A band whose view is the current one runs a batch.
pub proof fn current_band_advances(f: Field, current: Viewport)
    requires
        f.view == current,
    ensures
        dispatch_spec(f, current) == Task::Advance(f),
{
}

} // verus!
