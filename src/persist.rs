use vstd::prelude::*;
use vstd::string::StringSliceAdditionalSpecFns;
use crate::digest::{hash_key, hex_of, sha256_of};
use crate::text::{cat, chars_eq, chars_of, string_of, trim_chars, trim_end, trim_start};

verus! {

/// Why a canvas request is refused before any disk access.
#[derive(Clone, Copy, Debug, PartialEq, Eq, Structural)]
pub enum CanvasError {
    EmptyProjectId,
}

/// Refuses a project id that is empty or only white space.
pub fn check_project_id(project_id: &str) -> (r: Result<(), CanvasError>)
    ensures
        r is Err <==> trim_end(trim_start(project_id@)).len() == 0,
        r is Err ==> r == Err::<(), CanvasError>(CanvasError::EmptyProjectId),
{
    let t = trim_chars(&chars_of(project_id));
    if t.len() == 0 {
        Err(CanvasError::EmptyProjectId)
    } else {
        Ok(())
    }
}

/// The file that holds a project's canvas: the hexadecimal SHA-256 of its
/// id, then ".json".
pub fn snapshot_file_name(project_id: &str) -> (r: String)
    ensures
        r@ == hex_of(sha256_of(project_id.spec_bytes())) + ".json"@,
{
    let h = hash_key(project_id);
    string_of(&cat(&chars_of(h.as_str()), &chars_of(".json")))
}

/// The latest snapshot waiting to be written for one project.
pub struct PendingSave<T> {
    pub project_id: String,
    pub snapshot: T,
}

/// Snapshots waiting for the next flush: at most one per project, in the
/// order their projects first arrived.
pub struct PendingSaves<T> {
    entries: Vec<PendingSave<T>>,
}

pub open spec fn batch_view<T>(v: Seq<PendingSave<T>>) -> Seq<(Seq<char>, T)> {
    v.map_values(|e: PendingSave<T>| (e.project_id@, e.snapshot))
}

impl<T> View for PendingSaves<T> {
    type V = Seq<(Seq<char>, T)>;

    closed spec fn view(&self) -> Seq<(Seq<char>, T)> {
        batch_view(self.entries@)
    }
}

/// No project appears twice.
pub open spec fn keys_unique<T>(p: Seq<(Seq<char>, T)>) -> bool {
    forall|i: int, j: int| 0 <= i < j < p.len() ==> p[i].0 != p[j].0
}

/// Where `id` stands in `p`, or -1.
pub open spec fn find_key<T>(p: Seq<(Seq<char>, T)>, id: Seq<char>) -> int
    decreases p.len(),
{
    if p.len() == 0 {
        -1
    } else if p.last().0 == id {
        p.len() - 1
    } else {
        find_key(p.drop_last(), id)
    }
}

/// `p` after a save of `v` for `id`: the entry of `id` takes the new value,
/// or a new entry is added at the end.
pub open spec fn with_save<T>(p: Seq<(Seq<char>, T)>, id: Seq<char>, v: T) -> Seq<(Seq<char>, T)> {
    let i = find_key(p, id);
    if i >= 0 {
        p.update(i, (id, v))
    } else {
        p.push((id, v))
    }
}

proof fn lemma_find_key<T>(p: Seq<(Seq<char>, T)>, id: Seq<char>)
    ensures
        -1 <= find_key(p, id) < p.len(),
        find_key(p, id) >= 0 ==> p[find_key(p, id)].0 == id,
        find_key(p, id) == -1 ==> forall|k: int| 0 <= k < p.len() ==> p[k].0 != id,
    decreases p.len(),
{
    if p.len() > 0 {
        lemma_find_key(p.drop_last(), id);
        assert(forall|k: int| 0 <= k < p.len() - 1 ==> p.drop_last()[k] == p[k]);
    }
}

/// A save keeps every project at most once.
pub proof fn lemma_save_keeps_keys_unique<T>(p: Seq<(Seq<char>, T)>, id: Seq<char>, v: T)
    requires
        keys_unique(p),
    ensures
        keys_unique(with_save(p, id, v)),
{
    lemma_find_key(p, id);
}

/// Saving twice for one project is the same as saving only the second
/// value: repeated saves coalesce, the last one wins.
pub proof fn lemma_saves_coalesce<T>(p: Seq<(Seq<char>, T)>, id: Seq<char>, a: T, b: T)
    requires
        keys_unique(p),
    ensures
        with_save(with_save(p, id, a), id, b) == with_save(p, id, b),
{
    lemma_find_key(p, id);
    let q = with_save(p, id, a);
    lemma_find_key(q, id);
    lemma_save_keeps_keys_unique(p, id, a);
    let i = find_key(p, id);
    if i >= 0 {
        assert(q[i].0 == id);
        assert(find_key(q, id) == i) by {
            let j = find_key(q, id);
            if j != i {
                assert(q[j].0 == q[i].0);
            }
        }
        assert(q.update(i, (id, b)) =~= p.update(i, (id, b)));
    } else {
        let n = p.len() as int;
        assert(q[n].0 == id);
        assert(find_key(q, id) == n) by {
            let j = find_key(q, id);
            if j != n {
                assert(q[j].0 == q[n].0);
            }
        }
        assert(q.update(n, (id, b)) =~= p.push((id, b)));
    }
}

/// Three saves for one project, with nothing pending before them, leave a
/// single entry that holds the last value.
pub proof fn lemma_burst_leaves_last<T>(id: Seq<char>, a: T, b: T, c: T)
    ensures
        with_save(with_save(with_save(Seq::<(Seq<char>, T)>::empty(), id, a), id, b), id, c)
            == seq![(id, c)],
{
    let e = Seq::<(Seq<char>, T)>::empty();
    lemma_saves_coalesce(e, id, a, b);
    lemma_save_keeps_keys_unique(e, id, a);
    lemma_saves_coalesce(e, id, b, c);
    assert(find_key(e, id) == -1);
    assert(e.push((id, c)) =~= seq![(id, c)]);
}

impl<T> PendingSaves<T> {
    pub closed spec fn wf(&self) -> bool {
        keys_unique(self@)
    }

    /// Nothing pending.
    pub fn new() -> (r: Self)
        ensures
            r@ == Seq::<(Seq<char>, T)>::empty(),
            r.wf(),
    {
        let r = PendingSaves { entries: Vec::new() };
        assert(r@ =~= Seq::<(Seq<char>, T)>::empty());
        r
    }

    pub fn len(&self) -> (r: usize)
        ensures
            r == self@.len(),
    {
        self.entries.len()
    }

    /// Records `snapshot` as the latest for `project_id`, replacing an
    /// earlier one.
    pub fn record(&mut self, project_id: String, snapshot: T)
        requires
            old(self).wf(),
        ensures
            final(self).wf(),
            final(self)@ == with_save(old(self)@, project_id@, snapshot),
    {
        let ghost p = self@;
        let id = chars_of(project_id.as_str());
        let mut j: usize = self.entries.len();
        assert(p.take(j as int) =~= p);
        while j > 0
            invariant
                p == batch_view(self.entries@),
                p == old(self)@,
                keys_unique(p),
                j <= self.entries@.len(),
                id@ == project_id@,
                find_key(p, id@) == find_key(p.take(j as int), id@),
            decreases j,
        {
            let ghost pre = p.take(j as int);
            assert(pre.drop_last() =~= p.take(j as int - 1));
            assert(pre.last() == p[j as int - 1]);
            assert(p[j as int - 1].0 == self.entries@[j as int - 1].project_id@);
            if chars_eq(&chars_of(self.entries[j - 1].project_id.as_str()), &id) {
                assert(find_key(pre, id@) == j - 1);
                self.entries.set(j - 1, PendingSave { project_id, snapshot });
                proof {
                    lemma_save_keeps_keys_unique(p, id@, snapshot);
                    assert(self@ =~= p.update(j - 1, (id@, snapshot)));
                    assert(find_key(p, id@) == j - 1);
                    assert(with_save(p, id@, snapshot) == p.update(j - 1, (id@, snapshot)));
                }
                return;
            }
            j = j - 1;
        }
        self.entries.push(PendingSave { project_id, snapshot });
        proof {
            lemma_save_keeps_keys_unique(p, id@, snapshot);
            assert(self@ =~= p.push((id@, snapshot)));
        }
    }

    /// Hands out everything pending and leaves nothing behind.
    pub fn take_all(&mut self) -> (r: Vec<PendingSave<T>>)
        ensures
            batch_view(r@) == old(self)@,
            final(self)@ == Seq::<(Seq<char>, T)>::empty(),
            final(self).wf(),
    {
        let mut out: Vec<PendingSave<T>> = Vec::new();
        core::mem::swap(&mut out, &mut self.entries);
        assert(self@ =~= Seq::<(Seq<char>, T)>::empty());
        out
    }
}

/// What the persistence worker sees next.
pub enum WorkerEvent<T> {
    Save { project_id: String, snapshot: T },
    Idle,
    Closed,
}

/// What the persistence worker does next: keep waiting, write a batch and
/// wait again, or write a batch and stop.
pub enum WorkerAction<T> {
    Wait,
    Flush(Vec<PendingSave<T>>),
    Stop(Vec<PendingSave<T>>),
}

/// One decision of the persistence worker. A save replaces the pending
/// snapshot of its project and the wait goes on; a quiet period flushes
/// everything pending, if anything is; the closing of the mailbox flushes
/// what is left and stops.
pub fn worker_step<T>(pending: &mut PendingSaves<T>, event: WorkerEvent<T>) -> (a: WorkerAction<T>)
    requires
        old(pending).wf(),
    ensures
        final(pending).wf(),
        match event {
            WorkerEvent::Save { project_id, snapshot } => a is Wait
                && final(pending)@ == with_save(old(pending)@, project_id@, snapshot),
            WorkerEvent::Idle => if old(pending)@.len() == 0 {
                a is Wait && final(pending)@ == old(pending)@
            } else {
                a matches WorkerAction::Flush(b) && batch_view(b@) == old(pending)@
                    && final(pending)@.len() == 0
            },
            WorkerEvent::Closed => a matches WorkerAction::Stop(b) && batch_view(b@) == old(pending)@
                && final(pending)@.len() == 0,
        },
{
    match event {
        WorkerEvent::Save { project_id, snapshot } => {
            pending.record(project_id, snapshot);
            WorkerAction::Wait
        },
        WorkerEvent::Idle => {
            if pending.len() == 0 {
                WorkerAction::Wait
            } else {
                WorkerAction::Flush(pending.take_all())
            }
        },
        WorkerEvent::Closed => WorkerAction::Stop(pending.take_all()),
    }
}

} // verus!
