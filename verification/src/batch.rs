//! Batch jobs over a volume or the whole book (formatting, replacing): a queue
//! of chapters processed in order, cancellable, with what was changed kept for
//! a one-step undo of the whole job.
use vstd::prelude::*;

pub use crate::model::ChapterId;
use crate::text::{concat3, dec_seq, push_str, repeat_seq, repeat_str, string_of, usize_string};

verus! {

broadcast use vstd::string::group_string_axioms;

/// Scope of a job.
#[derive(Debug, Clone, Copy, PartialEq, Eq, Structural)]
pub enum Scope {
    Chapter,
    Volume,
    Book,
}

pub open spec fn spec_scope_label(s: Scope) -> &'static str {
    match s {
        Scope::Chapter => "当前章",
        Scope::Volume => "当前卷",
        Scope::Book => "全书",
    }
}

impl Scope {
    pub fn label(self) -> (r: &'static str)
        ensures
            r == spec_scope_label(self),
    {
        match self {
            Scope::Chapter => "当前章",
            Scope::Volume => "当前卷",
            Scope::Book => "全书",
        }
    }

    /// F4 cycles chapter → volume → book → chapter.
    pub fn next(self) -> (r: Self)
        ensures
            r == (match self {
                Scope::Chapter => Scope::Volume,
                Scope::Volume => Scope::Book,
                Scope::Book => Scope::Chapter,
            }),
    {
        match self {
            Scope::Chapter => Scope::Volume,
            Scope::Volume => Scope::Book,
            Scope::Book => Scope::Chapter,
        }
    }

    /// Whether the job reaches beyond the current chapter.
    pub fn is_wide(self) -> (r: bool)
        ensures
            r == (self != Scope::Chapter),
    {
        !matches!(self, Scope::Chapter)
    }
}

impl Default for Scope {
    fn default() -> (r: Self)
        ensures
            r == Scope::Chapter,
    {
        Scope::Chapter
    }
}

/// Three steps of `next` come back to the start.
pub proof fn law_scope_cycle(s: Scope)
    ensures
        match s {
            Scope::Chapter => Scope::Volume,
            Scope::Volume => Scope::Book,
            Scope::Book => Scope::Chapter,
        } != s,
{
}

/// Identifier of a snapshot taken before a chapter was changed.
#[derive(Debug, PartialEq, Eq)]
pub struct SnapshotId(pub String);

impl Clone for SnapshotId {
    fn clone(&self) -> (r: Self)
        ensures
            r.0@ == self.0@,
    {
        SnapshotId(self.0.clone())
    }
}

/// What took a snapshot.
#[derive(Debug, Clone, Copy, PartialEq, Eq, Structural)]
pub enum Trigger {
    Manual,
    Auto,
    BeforeFormat,
    BeforeReplace,
}

/// Kind of job.
#[derive(Debug, Clone, PartialEq, Eq)]
pub enum BatchKind {
    Format,
    Replace { pattern: String, to: String },
}

pub open spec fn spec_kind_label(k: BatchKind) -> &'static str {
    match k {
        BatchKind::Format => "排版",
        BatchKind::Replace { .. } => "替换",
    }
}

impl BatchKind {
    pub fn label(&self) -> (r: &'static str)
        ensures
            r == spec_kind_label(*self),
    {
        match self {
            BatchKind::Format => "排版",
            BatchKind::Replace { .. } => "替换",
        }
    }

    /// The snapshot a job takes of each chapter before changing it is marked
    /// as taken before that kind of job.
    pub fn trigger(&self) -> (r: Trigger)
        ensures
            r == (match *self {
                BatchKind::Format => Trigger::BeforeFormat,
                BatchKind::Replace { .. } => Trigger::BeforeReplace,
            }),
    {
        match self {
            BatchKind::Format => Trigger::BeforeFormat,
            BatchKind::Replace { .. } => Trigger::BeforeReplace,
        }
    }
}

/// A running job.
#[derive(Debug)]
pub struct BatchJob {
    pub kind: BatchKind,
    pub scope: Scope,
    /// Chapters still to do, popped from the back (pushed in reverse).
    queue: Vec<ChapterId>,
    total: usize,
    /// Changed chapters with the snapshot taken before each change.
    touched: Vec<(ChapterId, SnapshotId)>,
    /// Chapters that needed no change.
    unchanged: usize,
    /// Chapters skipped on an error (not fatal for the job).
    failed: Vec<(ChapterId, String)>,
    cancelled: bool,
}

pub struct BatchJobView {
    pub kind: BatchKind,
    pub scope: Scope,
    /// Chapters still to do, in processing order.
    pub pending: Seq<ChapterId>,
    pub total: int,
    pub touched: Seq<(ChapterId, SnapshotId)>,
    pub unchanged: int,
    pub failed: Seq<(ChapterId, String)>,
    pub cancelled: bool,
}

impl View for BatchJob {
    type V = BatchJobView;

    closed spec fn view(&self) -> BatchJobView {
        BatchJobView {
            kind: self.kind,
            scope: self.scope,
            pending: self.queue@.reverse(),
            total: self.total as int,
            touched: self.touched@,
            unchanged: self.unchanged as int,
            failed: self.failed@,
            cancelled: self.cancelled,
        }
    }
}

/// The one-line summary shown when a job ends.
pub open spec fn spec_summary(label: Seq<char>, v: BatchJobView) -> Seq<char> {
    let head = if v.cancelled {
        "已中断："@ + label + "了 "@ + dec_seq(v.touched.len()) + " 章（已完成的保留）"@
    } else {
        label + "完成：改动 "@ + dec_seq(v.touched.len()) + " 章"@
    };
    let a = if v.unchanged > 0 { "，"@ + dec_seq(v.unchanged as nat) + " 章无需改动"@ } else { Seq::empty() };
    let b = if v.failed.len() > 0 { "，"@ + dec_seq(v.failed.len()) + " 章出错已跳过"@ } else { Seq::empty() };
    let c = if v.touched.len() > 0 { "。Alt+U 可整体撤销"@ } else { Seq::empty() };
    head + a + b + c
}

/// Filled cells of a progress bar: `done / total` of `width`, rounded down.
pub open spec fn filled_cells(done: int, total: int, width: int) -> int {
    if total == 0 { width } else { done * width / total }
}

impl BatchJob {
    pub closed spec fn wf(&self) -> bool {
        &&& self.queue.len() <= self.total
        &&& self.unchanged <= self.total
    }

    /// A job over `chapters`, processed in the given order.
    pub fn new(kind: BatchKind, scope: Scope, chapters: Vec<ChapterId>) -> (r: Self)
        ensures
            r.wf(),
            r@.kind == kind,
            r@.scope == scope,
            r@.pending == chapters@,
            r@.total == chapters@.len(),
            r@.touched.len() == 0,
            r@.unchanged == 0,
            r@.failed.len() == 0,
            !r@.cancelled,
    {
        let total = chapters.len();
        let mut rest = chapters;
        let mut queue: Vec<ChapterId> = Vec::new();
        while rest.len() > 0
            invariant
                rest@ + queue@.reverse() == chapters@,
            decreases rest.len(),
        {
            let ghost before = rest@;
            let c = rest.pop().unwrap();
            assert(before == rest@.push(c));
            queue.push(c);
            assert(queue@.reverse() == seq![c] + queue@.drop_last().reverse());
            assert(rest@ + queue@.reverse() =~= before + queue@.drop_last().reverse());
        }
        assert(rest@ + queue@.reverse() == queue@.reverse());
        BatchJob {
            kind,
            scope,
            queue,
            total,
            touched: Vec::new(),
            unchanged: 0,
            failed: Vec::new(),
            cancelled: false,
        }
    }
}


impl BatchJob {
    pub fn total(&self) -> (r: usize)
        ensures
            r == self@.total,
    {
        self.total
    }

    /// Chapters taken from the queue so far.
    pub fn done(&self) -> (r: usize)
        requires
            self.wf(),
        ensures
            r == self@.total - self@.pending.len(),
    {
        self.total - self.queue.len()
    }

    pub fn changed_count(&self) -> (r: usize)
        ensures
            r == self@.touched.len(),
    {
        self.touched.len()
    }

    pub fn failed(&self) -> (r: &[(ChapterId, String)])
        ensures
            r@ == self@.failed,
    {
        self.failed.as_slice()
    }

    pub fn touched(&self) -> (r: &[(ChapterId, SnapshotId)])
        ensures
            r@ == self@.touched,
    {
        self.touched.as_slice()
    }

    pub fn is_cancelled(&self) -> (r: bool)
        ensures
            r == self@.cancelled,
    {
        self.cancelled
    }

    pub fn is_done(&self) -> (r: bool)
        ensures
            r == (self@.pending.len() == 0 || self@.cancelled),
    {
        self.queue.len() == 0 || self.cancelled
    }

    /// Esc cancels; the chapters already done stay done.
    pub fn cancel(&mut self)
        ensures
            final(self)@.cancelled,
            final(self)@.kind == old(self)@.kind,
            final(self)@.scope == old(self)@.scope,
            final(self)@.pending == old(self)@.pending,
            final(self)@.total == old(self)@.total,
            final(self)@.touched == old(self)@.touched,
            final(self)@.unchanged == old(self)@.unchanged,
            final(self)@.failed == old(self)@.failed,
            final(self).wf() == old(self).wf(),
    {
        self.cancelled = true;
    }

    /// The next chapter to process; nothing once cancelled or finished.
    pub fn next_chapter(&mut self) -> (r: Option<ChapterId>)
        requires
            old(self).wf(),
        ensures
            final(self).wf(),
            old(self)@.cancelled || old(self)@.pending.len() == 0 ==> r is None && final(self)@.pending
                == old(self)@.pending,
            !old(self)@.cancelled && old(self)@.pending.len() > 0 ==> r == Some(old(self)@.pending[0])
                && final(self)@.pending == old(self)@.pending.drop_first(),
            final(self)@.cancelled == old(self)@.cancelled,
            final(self)@.total == old(self)@.total,
            final(self)@.touched == old(self)@.touched,
            final(self)@.unchanged == old(self)@.unchanged,
            final(self)@.failed == old(self)@.failed,
    {
        if self.cancelled {
            return None;
        }
        let ghost q = self.queue@;
        let r = self.queue.pop();
        proof {
            if q.len() > 0 {
                assert(q.reverse()[0] == q.last());
                assert(q.drop_last().reverse() =~= q.reverse().drop_first());
            }
        }
        r
    }

    /// A chapter was changed; `before` is the snapshot taken first.
    pub fn record_change(&mut self, ch: ChapterId, before: SnapshotId)
        ensures
            final(self)@.touched == old(self)@.touched.push((ch, before)),
            final(self)@.pending == old(self)@.pending,
            final(self)@.cancelled == old(self)@.cancelled,
            final(self)@.total == old(self)@.total,
            final(self)@.unchanged == old(self)@.unchanged,
            final(self)@.failed == old(self)@.failed,
            final(self).wf() == old(self).wf(),
    {
        self.touched.push((ch, before));
    }

    /// A chapter needed no change.
    pub fn record_unchanged(&mut self)
        requires
            old(self).wf(),
            old(self)@.unchanged < old(self)@.total,
        ensures
            final(self).wf(),
            final(self)@.unchanged == old(self)@.unchanged + 1,
            final(self)@.touched == old(self)@.touched,
            final(self)@.pending == old(self)@.pending,
            final(self)@.cancelled == old(self)@.cancelled,
            final(self)@.total == old(self)@.total,
            final(self)@.failed == old(self)@.failed,
    {
        self.unchanged = self.unchanged + 1;
    }

    /// A chapter failed and was skipped.
    pub fn record_failure(&mut self, ch: ChapterId, why: String)
        ensures
            final(self)@.failed == old(self)@.failed.push((ch, why)),
            final(self)@.touched == old(self)@.touched,
            final(self)@.pending == old(self)@.pending,
            final(self)@.cancelled == old(self)@.cancelled,
            final(self)@.total == old(self)@.total,
            final(self)@.unchanged == old(self)@.unchanged,
            final(self).wf() == old(self).wf(),
    {
        self.failed.push((ch, why));
    }

    /// `[██░░] 2/4 章`: `width` cells, the filled ones `done * width / total` rounded down
    /// (all of them for an empty job).
    pub fn progress_line(&self, width: usize) -> (r: String)
        requires
            self.wf(),
        ensures
            r@ == "["@ + repeat_seq("█"@, filled_cells(self@.total - self@.pending.len(), self@.total, width as int) as nat)
                + repeat_seq("░"@, (width - filled_cells(self@.total - self@.pending.len(), self@.total, width as int)) as nat)
                + "] "@ + dec_seq((self@.total - self@.pending.len()) as nat) + "/"@ + dec_seq(self@.total as nat)
                + " 章"@,
    {
        let done = self.done();
        let filled: usize = if self.total == 0 {
            width
        } else {
            assert(done as int * width as int <= 0xffff_ffff_ffff_ffff * 0xffff_ffff_ffff_ffffint) by (nonlinear_arith)
                requires done <= 0xffff_ffff_ffff_ffffint, width <= 0xffff_ffff_ffff_ffffint, done >= 0, width >= 0;
            let prod: u128 = done as u128 * width as u128;
            proof {
                assert(done as int * width as int <= self.total as int * width as int) by (nonlinear_arith)
                    requires done <= self.total;
                vstd::arithmetic::div_mod::lemma_div_is_ordered(done * width, self.total * width, self.total as int);
                vstd::arithmetic::div_mod::lemma_div_multiples_vanish(width as int, self.total as int);
                vstd::arithmetic::mul::lemma_mul_is_commutative(self.total as int, width as int);
                assert(done as int * width as int <= 0xffff_ffff_ffff_ffff * 0xffff_ffff_ffff_ffffint) by (nonlinear_arith)
                    requires done <= 0xffff_ffff_ffff_ffffint, width <= 0xffff_ffff_ffff_ffffint;
            }
            (prod / self.total as u128) as usize
        };
        let mut s = string_of("[");
        push_str(&mut s, repeat_str("█", filled).as_str());
        push_str(&mut s, repeat_str("░", width - filled).as_str());
        push_str(&mut s, "] ");
        push_str(&mut s, usize_string(done).as_str());
        push_str(&mut s, "/");
        push_str(&mut s, usize_string(self.total).as_str());
        push_str(&mut s, " 章");
        s
    }

    /// The sentence shown when the job ends.
    pub fn summary(&self) -> (r: String)
        ensures
            r@ == spec_summary(spec_kind_label(self@.kind)@, self@),
    {
        let verb = self.kind.label();
        let mut s = if self.cancelled {
            let mut h = string_of("已中断：");
            push_str(&mut h, verb);
            push_str(&mut h, "了 ");
            push_str(&mut h, usize_string(self.touched.len()).as_str());
            push_str(&mut h, " 章（已完成的保留）");
            h
        } else {
            let mut h = string_of(verb);
            push_str(&mut h, "完成：改动 ");
            push_str(&mut h, usize_string(self.touched.len()).as_str());
            push_str(&mut h, " 章");
            h
        };
        let ghost head = s@;
        if self.unchanged > 0 {
            push_str(&mut s, "，");
            push_str(&mut s, usize_string(self.unchanged).as_str());
            push_str(&mut s, " 章无需改动");
        }
        let ghost ha = s@;
        if self.failed.len() > 0 {
            push_str(&mut s, "，");
            push_str(&mut s, usize_string(self.failed.len()).as_str());
            push_str(&mut s, " 章出错已跳过");
        }
        let ghost hab = s@;
        if self.touched.len() > 0 {
            push_str(&mut s, "。Alt+U 可整体撤销");
        }
        proof {
            let v = self@;
            let a = if v.unchanged > 0 { "，"@ + dec_seq(v.unchanged as nat) + " 章无需改动"@ } else { Seq::<char>::empty() };
            let b = if v.failed.len() > 0 { "，"@ + dec_seq(v.failed.len()) + " 章出错已跳过"@ } else { Seq::<char>::empty() };
            let c = if v.touched.len() > 0 { "。Alt+U 可整体撤销"@ } else { Seq::<char>::empty() };
            assert(ha =~= head + a);
            assert(hab =~= head + a + b);
            assert(s@ =~= head + a + b + c);
        }
        s
    }
}

/// One finished job, kept in memory for "undo this batch": every changed chapter with
/// the snapshot taken before it.
#[derive(Debug, Clone)]
pub struct BatchUndo {
    pub kind_label: &'static str,
    pub scope: Scope,
    pub entries: Vec<(ChapterId, SnapshotId)>,
}

impl BatchUndo {
    /// Nothing to undo when no chapter was changed.
    pub fn from_job(job: &BatchJob) -> (r: Option<Self>)
        ensures
            r is None <==> job@.touched.len() == 0,
            r is Some ==> r->0.kind_label == spec_kind_label(job@.kind) && r->0.scope == job@.scope
                && r->0.entries@.len() == job@.touched.len()
                && forall|i: int| 0 <= i < job@.touched.len() ==> (#[trigger] r->0.entries@[i]).0.0@ == job@.touched[i].0.0@
                    && r->0.entries@[i].1.0@ == job@.touched[i].1.0@,
    {
        if job.touched.len() == 0 {
            return None;
        }
        let mut entries: Vec<(ChapterId, SnapshotId)> = Vec::new();
        let mut i: usize = 0;
        while i < job.touched.len()
            invariant
                i <= job.touched.len(),
                entries@.len() == i,
                forall|k: int| 0 <= k < i ==> (#[trigger] entries@[k]).0.0@ == job@.touched[k].0.0@
                    && entries@[k].1.0@ == job@.touched[k].1.0@,
            decreases job.touched.len() - i,
        {
            let e = (job.touched[i].0.clone(), job.touched[i].1.clone());
            entries.push(e);
            i = i + 1;
        }
        Some(BatchUndo { kind_label: job.kind.label(), scope: job.scope, entries })
    }

    /// `撤销本次替换（全书，2 章）`.
    pub fn describe(&self) -> (r: String)
        ensures
            r@ == "撤销本次"@ + self.kind_label@ + "（"@ + spec_scope_label(self.scope)@ + "，"@
                + dec_seq(self.entries@.len()) + " 章）"@,
    {
        let mut s = concat3("撤销本次", self.kind_label, "（");
        push_str(&mut s, self.scope.label());
        push_str(&mut s, "，");
        push_str(&mut s, usize_string(self.entries.len()).as_str());
        push_str(&mut s, " 章）");
        s
    }
}

} // verus!
