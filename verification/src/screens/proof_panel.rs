//! The proofreading panel: which issues there are, where the highlight is,
//! whether the low-confidence ones are folded. Issues are grouped by
//! severity; low-confidence ones (mostly 的/地/得) start folded, and `f`
//! unfolds them: such hints should rather stay quiet than crowd the writer.
use vstd::prelude::*;

use crate::keymap::KeyCode;
use crate::screens::command_palette::followed_scroll;
use crate::text::{str_eq, to_owned_string};

verus! {

broadcast use vstd::string::group_string_axioms;

/// How serious an issue is; the panel lists errors first, then warnings, then hints.
#[derive(Debug, Clone, Copy, PartialEq, Eq, Structural)]
pub enum Severity {
    Error,
    Warning,
    Hint,
}

/// The listing order of a severity.
pub open spec fn severity_rank(s: Severity) -> nat {
    match s {
        Severity::Error => 0,
        Severity::Warning => 1,
        Severity::Hint => 2,
    }
}

fn rank(s: Severity) -> (r: u8)
    ensures
        r == severity_rank(s),
{
    match s {
        Severity::Error => 0,
        Severity::Warning => 1,
        Severity::Hint => 2,
    }
}

/// A proofreading issue as the panel reads it.
#[derive(Debug)]
pub struct Issue {
    /// Byte range in the chapter text.
    pub range: std::ops::Range<usize>,
    pub severity: Severity,
    /// The category's display label.
    pub category: String,
    pub rule_id: String,
    pub message: String,
    pub suggestions: Vec<String>,
    /// Its confidence is below the panel's folding threshold.
    pub low_confidence: bool,
}

/// An issue, as values.
pub struct IssueV {
    pub start: nat,
    pub end: nat,
    pub severity: Severity,
    pub category: Seq<char>,
    pub rule_id: Seq<char>,
    pub message: Seq<char>,
    pub suggestions: Seq<Seq<char>>,
    pub low_confidence: bool,
}

impl View for Issue {
    type V = IssueV;

    open spec fn view(&self) -> IssueV {
        IssueV {
            start: self.range.start as nat,
            end: self.range.end as nat,
            severity: self.severity,
            category: self.category@,
            rule_id: self.rule_id@,
            message: self.message@,
            suggestions: self.suggestions@.map_values(|s: String| s@),
            low_confidence: self.low_confidence,
        }
    }
}

fn copy_strings(v: &Vec<String>) -> (r: Vec<String>)
    ensures
        r@.map_values(|s: String| s@) == v@.map_values(|s: String| s@),
{
    let mut out: Vec<String> = Vec::new();
    let mut i: usize = 0;
    while i < v.len()
        invariant
            i <= v@.len(),
            out@.len() == i,
            forall|k: int| 0 <= k < i ==> (#[trigger] out@[k])@ == v@[k]@,
        decreases v@.len() - i,
    {
        out.push(to_owned_string(v[i].as_str()));
        i = i + 1;
    }
    proof {
        assert(out@.map_values(|s: String| s@) =~= v@.map_values(|s: String| s@));
    }
    out
}

impl Clone for Issue {
    fn clone(&self) -> (r: Self)
        ensures
            r@ == self@,
    {
        Issue {
            range: self.range.start..self.range.end,
            severity: self.severity,
            category: to_owned_string(self.category.as_str()),
            rule_id: to_owned_string(self.rule_id.as_str()),
            message: to_owned_string(self.message.as_str()),
            suggestions: copy_strings(&self.suggestions),
            low_confidence: self.low_confidence,
        }
    }
}

pub open spec fn issues_view(s: Seq<Issue>) -> Seq<IssueV> {
    s.map_values(|i: Issue| i@)
}

/// `a` is listed before `b`: by severity, then by position.
pub open spec fn listed_before(a: IssueV, b: IssueV) -> bool {
    severity_rank(a.severity) < severity_rank(b.severity) || (severity_rank(a.severity) == severity_rank(b.severity)
        && a.start < b.start)
}

/// Puts `x` after every issue that is not listed after it.
pub open spec fn insert_issue(s: Seq<IssueV>, x: IssueV) -> Seq<IssueV>
    decreases s.len(),
{
    if s.len() == 0 {
        seq![x]
    } else if listed_before(x, s[0]) {
        seq![x] + s
    } else {
        seq![s[0]] + insert_issue(s.drop_first(), x)
    }
}

/// The issues by severity then position; issues that tie keep their order.
pub open spec fn sort_issues(s: Seq<IssueV>) -> Seq<IssueV>
    decreases s.len(),
{
    if s.len() == 0 {
        Seq::empty()
    } else {
        insert_issue(sort_issues(s.drop_last()), s.last())
    }
}

/// No issue is listed before one that comes earlier.
pub open spec fn in_listing_order(s: Seq<IssueV>) -> bool {
    forall|i: int, j: int| 0 <= i < j < s.len() ==> !listed_before(#[trigger] s[j], #[trigger] s[i])
}

proof fn lemma_insert_issue(s: Seq<IssueV>, x: IssueV, j: int)
    requires
        0 <= j <= s.len(),
        forall|m: int| 0 <= m < j ==> !listed_before(x, #[trigger] s[m]),
        j == s.len() || listed_before(x, s[j]),
    ensures
        insert_issue(s, x) == s.take(j) + seq![x] + s.skip(j),
    decreases j,
{
    if j == 0 {
        if s.len() == 0 {
            assert(s.take(0) + seq![x] + s.skip(0) =~= seq![x]);
        } else {
            assert(s.take(0) + seq![x] + s.skip(0) =~= seq![x] + s);
        }
    } else {
        let d = s.drop_first();
        assert forall|m: int| 0 <= m < j - 1 implies !listed_before(x, #[trigger] d[m]) by {
            assert(d[m] == s[m + 1]);
        }
        lemma_insert_issue(d, x, j - 1);
        assert(seq![s[0]] + (d.take(j - 1) + seq![x] + d.skip(j - 1)) =~= s.take(j) + seq![x] + s.skip(j));
    }
}

/// The first place where `x` is listed before the issue there.
proof fn lemma_insert_issue_place(s: Seq<IssueV>, x: IssueV) -> (j: int)
    ensures
        0 <= j <= s.len(),
        forall|m: int| 0 <= m < j ==> !listed_before(x, #[trigger] s[m]),
        j == s.len() || listed_before(x, s[j]),
        insert_issue(s, x) == s.take(j) + seq![x] + s.skip(j),
{
    let j = if exists|m: int| 0 <= m < s.len() && listed_before(x, #[trigger] s[m]) {
        lemma_least_listed(s, x, s.len() as int)
    } else {
        s.len() as int
    };
    lemma_insert_issue(s, x, j);
    j
}

proof fn lemma_least_listed(s: Seq<IssueV>, x: IssueV, n: int) -> (j: int)
    requires
        0 <= n <= s.len(),
        exists|m: int| 0 <= m < n && listed_before(x, #[trigger] s[m]),
    ensures
        0 <= j < n,
        listed_before(x, s[j]),
        forall|m: int| 0 <= m < j ==> !listed_before(x, #[trigger] s[m]),
    decreases n,
{
    if exists|m: int| 0 <= m < n - 1 && listed_before(x, #[trigger] s[m]) {
        lemma_least_listed(s, x, n - 1)
    } else {
        let m = choose|m: int| 0 <= m < n && listed_before(x, #[trigger] s[m]);
        assert(m == n - 1);
        n - 1
    }
}

proof fn lemma_listed_total(a: IssueV, b: IssueV, c: IssueV)
    ensures
        !listed_before(a, b) && !listed_before(b, c) ==> !listed_before(a, c),
        listed_before(a, b) ==> !listed_before(b, a),
{
}

proof fn lemma_insert_keeps_order(s: Seq<IssueV>, x: IssueV)
    requires
        in_listing_order(s),
    ensures
        in_listing_order(insert_issue(s, x)),
{
    let j = lemma_insert_issue_place(s, x);
    let r = insert_issue(s, x);
    assert forall|a: int, b: int| 0 <= a < b < r.len() implies !listed_before(#[trigger] r[b], #[trigger] r[a]) by {
        if a < j && b < j {
            assert(r[a] == s[a] && r[b] == s[b]);
        } else if a < j && b == j {
            assert(r[a] == s[a] && r[b] == x);
        } else if a < j {
            assert(r[a] == s[a] && r[b] == s[b - 1]);
        } else if a == j {
            assert(r[a] == x && r[b] == s[b - 1]);
            if b - 1 > j {
                lemma_listed_total(s[b - 1], s[j], x);
                assert(!listed_before(s[b - 1], s[j]));
            }
            lemma_listed_total(x, s[j], s[b - 1]);
            assert(!listed_before(s[b - 1], x)) by {
                if listed_before(s[b - 1], x) {
                    if b - 1 == j {
                        lemma_listed_total(x, s[j], x);
                    } else {
                        assert(!listed_before(s[b - 1], s[j]));
                    }
                }
            }
        } else {
            assert(r[a] == s[a - 1] && r[b] == s[b - 1]);
        }
    }
}

proof fn lemma_sort_in_order(s: Seq<IssueV>)
    ensures
        in_listing_order(sort_issues(s)),
        sort_issues(s).len() == s.len(),
    decreases s.len(),
{
    if s.len() > 0 {
        lemma_sort_in_order(s.drop_last());
        lemma_insert_keeps_order(sort_issues(s.drop_last()), s.last());
        let j = lemma_insert_issue_place(sort_issues(s.drop_last()), s.last());
    }
}

/// Stable insertion of an issue into a list in listing order.
fn insert_sorted(items: &mut Vec<Issue>, x: Issue)
    ensures
        issues_view(final(items)@) == insert_issue(issues_view(old(items)@), x@),
{
    let ghost xv = x@;
    let ghost sv = issues_view(items@);
    let xr = rank(x.severity);
    let mut j: usize = 0;
    while j < items.len() && !(xr < rank(items[j].severity) || (xr == rank(items[j].severity) && x.range.start
        < items[j].range.start))
        invariant
            j <= items@.len(),
            xv == x@,
            xr == severity_rank(x.severity),
            sv == issues_view(items@),
            forall|m: int| 0 <= m < j ==> !listed_before(xv, #[trigger] sv[m]),
        decreases items@.len() - j,
    {
        proof {
            assert(sv[j as int] == items@[j as int]@);
        }
        j = j + 1;
    }
    proof {
        if j < items@.len() {
            assert(sv[j as int] == items@[j as int]@);
        }
        lemma_insert_issue(sv, xv, j as int);
    }
    items.insert(j, x);
    proof {
        assert(issues_view(items@) =~= sv.take(j as int) + seq![xv] + sv.skip(j as int));
    }
}

/// The issues shown: all of them when unfolded, else those not of low confidence.
pub open spec fn visible_of(s: Seq<IssueV>, show_folded: bool) -> Seq<IssueV>
    decreases s.len(),
{
    if s.len() == 0 {
        Seq::empty()
    } else {
        visible_of(s.drop_last(), show_folded) + if show_folded || !s.last().low_confidence {
            seq![s.last()]
        } else {
            Seq::empty()
        }
    }
}

/// How many issues are of low confidence.
pub open spec fn low_count(s: Seq<IssueV>) -> nat
    decreases s.len(),
{
    if s.len() == 0 {
        0
    } else {
        low_count(s.drop_last()) + if s.last().low_confidence { 1nat } else { 0nat }
    }
}

/// How many issues have severity `sev`.
pub open spec fn severity_count(s: Seq<IssueV>, sev: Severity) -> nat
    decreases s.len(),
{
    if s.len() == 0 {
        0
    } else {
        severity_count(s.drop_last(), sev) + if s.last().severity == sev { 1nat } else { 0nat }
    }
}

proof fn lemma_visible_len(s: Seq<IssueV>, show: bool)
    ensures
        visible_of(s, show).len() <= s.len(),
        show ==> visible_of(s, show) == s,
        low_count(s) <= s.len(),
        severity_count(s, Severity::Error) <= s.len(),
        severity_count(s, Severity::Warning) <= s.len(),
        severity_count(s, Severity::Hint) <= s.len(),
    decreases s.len(),
{
    if s.len() > 0 {
        lemma_visible_len(s.drop_last(), show);
        if show {
            assert(s.drop_last().push(s.last()) =~= s);
        }
    }
}

/// A line of the panel: a group header (severity and how many issues it has),
/// or an issue with its place among the visible ones.
pub enum Row<'a> {
    Header(Severity, usize),
    Issue { index: usize, issue: &'a Issue, selected: bool },
}

pub enum RowV {
    Header(Severity, nat),
    Issue { index: nat, issue: IssueV, selected: bool },
}

impl<'a> View for Row<'a> {
    type V = RowV;

    open spec fn view(&self) -> RowV {
        match self {
            Row::Header(s, n) => RowV::Header(*s, *n as nat),
            Row::Issue { index, issue, selected } => RowV::Issue {
                index: *index as nat,
                issue: issue@,
                selected: *selected,
            },
        }
    }
}

/// The lines for the first `n` visible issues: a header before each issue whose
/// severity differs from the one before it, then the issue.
pub open spec fn panel_rows(vis: Seq<IssueV>, n: int, cursor: nat) -> Seq<RowV>
    decreases n,
{
    if n <= 0 {
        Seq::empty()
    } else {
        let k = n - 1;
        panel_rows(vis, k, cursor) + (if k == 0 || vis[k - 1].severity != vis[k].severity {
            seq![RowV::Header(vis[k].severity, severity_count(vis, vis[k].severity))]
        } else {
            Seq::empty()
        }) + seq![RowV::Issue { index: k as nat, issue: vis[k], selected: k == cursor }]
    }
}

/// The panel's state, as values.
pub struct ProofPanelView {
    pub issues: Seq<IssueV>,
    pub show_folded: bool,
    pub cursor: nat,
    pub scroll: nat,
    pub height: nat,
}

pub struct ProofPanel {
    /// All issues, in listing order.
    issues: Vec<Issue>,
    /// Whether the low-confidence issues are shown.
    show_folded: bool,
    /// Index of the highlight among the visible issues (headers not counted).
    cursor: usize,
    scroll: usize,
    height: usize,
}

impl View for ProofPanel {
    type V = ProofPanelView;

    closed spec fn view(&self) -> ProofPanelView {
        ProofPanelView {
            issues: issues_view(self.issues@),
            show_folded: self.show_folded,
            cursor: self.cursor as nat,
            scroll: self.scroll as nat,
            height: self.height as nat,
        }
    }
}

/// The visible issues of a panel state.
pub open spec fn visible_issues(p: ProofPanelView) -> Seq<IssueV> {
    visible_of(p.issues, p.show_folded)
}

/// The highlight held within `n` items (on the last one past the end; 0 when there are none).
pub open spec fn clamp_index(c: nat, n: nat) -> nat {
    if n == 0 { 0 } else if c < n { c } else { (n - 1) as nat }
}

impl ProofPanel {
    pub closed spec fn wf(&self) -> bool {
        self.height >= 1
    }

    /// The panel over the issues, listed by severity then position.
    pub fn new(issues: Vec<Issue>) -> (r: Self)
        ensures
            r.wf(),
            r@.issues == sort_issues(issues_view(issues@)),
            in_listing_order(r@.issues),
            !r@.show_folded,
            r@.cursor == 0,
            r@.scroll == 0,
            r@.height == 10,
    {
        let ghost iv = issues_view(issues@);
        let mut issues = issues;
        let mut sorted: Vec<Issue> = Vec::new();
        let n = issues.len();
        let mut i: usize = 0;
        proof {
            assert(iv.take(0) =~= Seq::<IssueV>::empty());
            assert(issues_view(issues@).skip(0) =~= iv);
        }
        while issues.len() > 0
            invariant
                i + issues@.len() == n,
                n == iv.len(),
                issues_view(issues@) == iv.skip(i as int),
                issues_view(sorted@) == sort_issues(iv.take(i as int)),
            decreases issues@.len(),
        {
            let ghost before = issues@;
            let x = issues.remove(0);
            proof {
                assert(x@ == issues_view(before)[0]);
                assert(iv.skip(i as int)[0] == iv[i as int]);
                assert(issues@ =~= before.remove(0));
                assert forall|k: int| 0 <= k < issues@.len() implies #[trigger] issues_view(issues@)[k] == iv.skip(i + 1)[k] by {
                    assert(issues@[k] == before[k + 1]);
                    assert(issues_view(before)[k + 1] == iv.skip(i as int)[k + 1]);
                }
                assert(issues_view(issues@) =~= iv.skip(i + 1));
                assert(iv.take(i + 1).drop_last() =~= iv.take(i as int));
                assert(iv.take(i + 1).last() == iv[i as int]);
            }
            insert_sorted(&mut sorted, x);
            i = i + 1;
        }
        proof {
            lemma_sort_in_order(iv);
            assert(iv.take(n as int) =~= iv);
        }
        ProofPanel { issues: sorted, show_folded: false, cursor: 0, scroll: 0, height: 10 }
    }
}


/// The same issue for removal: same range and same rule.
pub open spec fn same_place(a: IssueV, b: IssueV) -> bool {
    a.start == b.start && a.end == b.end && a.rule_id == b.rule_id
}

/// Index of the first issue at the place of `t`, or -1.
pub open spec fn first_same(s: Seq<IssueV>, t: IssueV) -> int
    decreases s.len(),
{
    if s.len() == 0 {
        -1
    } else if same_place(s[0], t) {
        0
    } else {
        let r = first_same(s.drop_first(), t);
        if r < 0 { -1 } else { r + 1 }
    }
}

proof fn lemma_first_same(s: Seq<IssueV>, t: IssueV)
    ensures
        ({
            let r = first_same(s, t);
            &&& -1 <= r < s.len()
            &&& r >= 0 ==> same_place(s[r], t)
            &&& forall|k: int| 0 <= k < s.len() && (r < 0 || k < r) ==> !same_place(#[trigger] s[k], t)
        }),
    decreases s.len(),
{
    if s.len() > 0 && !same_place(s[0], t) {
        lemma_first_same(s.drop_first(), t);
        let r = first_same(s, t);
        assert forall|k: int| 0 <= k < s.len() && (r < 0 || k < r) implies !same_place(#[trigger] s[k], t) by {
            if k > 0 {
                assert(s[k] == s.drop_first()[k - 1]);
            }
        }
    }
}

/// Each visible issue is one of the issues.
proof fn lemma_visible_member(s: Seq<IssueV>, show: bool, k: int)
    requires
        0 <= k < visible_of(s, show).len(),
    ensures
        exists|m: int| 0 <= m < s.len() && s[m] == visible_of(s, show)[k],
    decreases s.len(),
{
    let pre = visible_of(s.drop_last(), show);
    if k < pre.len() {
        lemma_visible_member(s.drop_last(), show, k);
        let m = choose|m: int| 0 <= m < s.drop_last().len() && s.drop_last()[m] == pre[k];
        assert(s[m] == visible_of(s, show)[k]);
    } else {
        assert(s[s.len() - 1] == visible_of(s, show)[k]);
    }
}

/// Folding hides exactly the low-confidence issues: the visible ones and the
/// folded ones together are all of them, and unfolded every issue is shown.
pub proof fn law_folding_hides_exactly_low_confidence(s: Seq<IssueV>)
    ensures
        visible_of(s, false).len() + low_count(s) == s.len(),
        visible_of(s, true) == s,
        forall|k: int| 0 <= k < visible_of(s, false).len() ==> !(#[trigger] visible_of(s, false)[k]).low_confidence,
    decreases s.len(),
{
    lemma_visible_len(s, true);
    if s.len() > 0 {
        law_folding_hides_exactly_low_confidence(s.drop_last());
    }
}

fn low_confidence_count(v: &Vec<Issue>) -> (r: usize)
    ensures
        r == low_count(issues_view(v@)),
{
    let ghost iv = issues_view(v@);
    let mut n: usize = 0;
    let mut i: usize = 0;
    proof {
        assert(iv.take(0) =~= Seq::<IssueV>::empty());
    }
    while i < v.len()
        invariant
            i <= v@.len(),
            iv == issues_view(v@),
            n == low_count(iv.take(i as int)),
            n <= i,
        decreases v@.len() - i,
    {
        proof {
            assert(iv.take(i + 1).drop_last() =~= iv.take(i as int));
            assert(iv.take(i + 1).last() == v@[i as int]@);
        }
        if v[i].low_confidence {
            n = n + 1;
        }
        i = i + 1;
    }
    proof {
        assert(iv.take(v@.len() as int) =~= iv);
    }
    n
}

fn count_severity(vis: &Vec<&Issue>, sev: Severity) -> (r: usize)
    ensures
        r == severity_count(vis@.map_values(|x: &Issue| x@), sev),
{
    let ghost vv = vis@.map_values(|x: &Issue| x@);
    let mut n: usize = 0;
    let mut i: usize = 0;
    proof {
        assert(vv.take(0) =~= Seq::<IssueV>::empty());
    }
    while i < vis.len()
        invariant
            i <= vis@.len(),
            vv == vis@.map_values(|x: &Issue| x@),
            n == severity_count(vv.take(i as int), sev),
            n <= i,
        decreases vis@.len() - i,
    {
        proof {
            assert(vv.take(i + 1).drop_last() =~= vv.take(i as int));
            assert(vv.take(i + 1).last() == vis@[i as int]@);
        }
        if vis[i].severity == sev {
            n = n + 1;
        }
        i = i + 1;
    }
    proof {
        assert(vv.take(vis@.len() as int) =~= vv);
    }
    n
}

impl ProofPanel {
    /// The issues shown under the current folding, in listing order.
    pub fn visible(&self) -> (r: Vec<&Issue>)
        ensures
            r@.map_values(|x: &Issue| x@) == visible_issues(self@),
    {
        let ghost iv = issues_view(self.issues@);
        let mut out: Vec<&Issue> = Vec::new();
        let mut i: usize = 0;
        proof {
            assert(iv.take(0) =~= Seq::<IssueV>::empty());
            assert(out@.map_values(|x: &Issue| x@) =~= Seq::<IssueV>::empty());
        }
        while i < self.issues.len()
            invariant
                i <= self.issues@.len(),
                iv == issues_view(self.issues@),
                out@.map_values(|x: &Issue| x@) == visible_of(iv.take(i as int), self.show_folded),
            decreases self.issues@.len() - i,
        {
            let ghost before = out@.map_values(|x: &Issue| x@);
            proof {
                assert(iv.take(i + 1).drop_last() =~= iv.take(i as int));
                assert(iv.take(i + 1).last() == self.issues@[i as int]@);
            }
            if self.show_folded || !self.issues[i].low_confidence {
                out.push(&self.issues[i]);
                proof {
                    assert(out@.map_values(|x: &Issue| x@) =~= before + seq![self.issues@[i as int]@]);
                }
            } else {
                proof {
                    assert(before + Seq::<IssueV>::empty() =~= before);
                }
            }
            i = i + 1;
        }
        proof {
            assert(iv.take(self.issues@.len() as int) =~= iv);
        }
        out
    }

    pub fn total(&self) -> (r: usize)
        ensures
            r == self@.issues.len(),
    {
        self.issues.len()
    }

    pub fn visible_count(&self) -> (r: usize)
        ensures
            r == visible_issues(self@).len(),
    {
        let v = self.visible();
        proof {
            assert(v@.map_values(|x: &Issue| x@).len() == v@.len());
        }
        v.len()
    }

    pub fn is_empty(&self) -> (r: bool)
        ensures
            r == (self@.issues.len() == 0),
    {
        self.issues.len() == 0
    }

    pub fn cursor(&self) -> (r: usize)
        ensures
            r == self@.cursor,
    {
        self.cursor
    }

    pub fn scroll(&self) -> (r: usize)
        ensures
            r == self@.scroll,
    {
        self.scroll
    }

    pub fn show_folded(&self) -> (r: bool)
        ensures
            r == self@.show_folded,
    {
        self.show_folded
    }

    /// The highlighted issue.
    pub fn current(&self) -> (r: Option<Issue>)
        ensures
            self@.cursor < visible_issues(self@).len() ==> r is Some && r.unwrap()@ == visible_issues(self@)[self@.cursor as int],
            self@.cursor >= visible_issues(self@).len() ==> r is None,
    {
        let v = self.visible();
        if self.cursor < v.len() {
            proof {
                assert(v@.map_values(|x: &Issue| x@)[self.cursor as int] == v@[self.cursor as int]@);
            }
            Some(v[self.cursor].clone())
        } else {
            None
        }
    }

    fn follow_cursor(&mut self)
        requires
            old(self).wf(),
        ensures
            final(self).wf(),
            final(self)@ == (ProofPanelView {
                scroll: followed_scroll(old(self)@.cursor as int, old(self)@.scroll as int, old(self)@.height as int) as nat,
                ..old(self)@
            }),
    {
        if self.cursor < self.scroll {
            self.scroll = self.cursor;
        } else if self.cursor - self.scroll >= self.height {
            self.scroll = self.cursor - self.height + 1;
        }
    }

    pub fn set_height(&mut self, h: usize)
        requires
            old(self).wf(),
        ensures
            final(self).wf(),
            ({
                let hh: nat = if h >= 1 { h as nat } else { 1 };
                final(self)@ == (ProofPanelView {
                    height: hh,
                    scroll: followed_scroll(old(self)@.cursor as int, old(self)@.scroll as int, hh as int) as nat,
                    ..old(self)@
                })
            }),
    {
        self.height = if h >= 1 { h } else { 1 };
        self.follow_cursor();
    }

    /// `f`: shows or hides the folded low-confidence issues; nothing to do when none is folded.
    pub fn toggle_folded(&mut self)
        requires
            old(self).wf(),
        ensures
            final(self).wf(),
            low_count(old(self)@.issues) == 0 ==> final(self)@ == old(self)@,
            low_count(old(self)@.issues) > 0 ==> {
                let shown = !old(self)@.show_folded;
                let c = clamp_index(old(self)@.cursor, visible_of(old(self)@.issues, shown).len());
                final(self)@ == (ProofPanelView {
                    show_folded: shown,
                    cursor: c,
                    scroll: followed_scroll(c as int, old(self)@.scroll as int, old(self)@.height as int) as nat,
                    ..old(self)@
                })
            },
    {
        if low_confidence_count(&self.issues) == 0 {
            return;
        }
        self.show_folded = !self.show_folded;
        let n = self.visible_count();
        self.cursor = if n == 0 { 0 } else if self.cursor < n { self.cursor } else { n - 1 };
        self.follow_cursor();
    }

    /// How many issues are folded away and whether they are shown now, for the
    /// status bar; `None` when none is of low confidence.
    pub fn fold_hint(&self) -> (r: Option<(usize, bool)>)
        ensures
            low_count(self@.issues) == 0 ==> r is None,
            low_count(self@.issues) > 0 ==> r == Some((low_count(self@.issues) as usize, self@.show_folded)),
    {
        let n = low_confidence_count(&self.issues);
        if n > 0 {
            Some((n, self.show_folded))
        } else {
            None
        }
    }

    pub fn move_down(&mut self)
        requires
            old(self).wf(),
        ensures
            final(self).wf(),
            ({
                let n = visible_issues(old(self)@).len();
                let c0 = old(self)@.cursor;
                let c = if n > 0 { if c0 + 1 < n { c0 + 1 } else { (n - 1) as nat } } else { c0 };
                final(self)@ == (ProofPanelView {
                    cursor: c,
                    scroll: followed_scroll(c as int, old(self)@.scroll as int, old(self)@.height as int) as nat,
                    ..old(self)@
                })
            }),
    {
        let n = self.visible_count();
        if n > 0 {
            self.cursor = if self.cursor < n - 1 { self.cursor + 1 } else { n - 1 };
        }
        self.follow_cursor();
    }

    pub fn move_up(&mut self)
        requires
            old(self).wf(),
        ensures
            final(self).wf(),
            ({
                let c: nat = if old(self)@.cursor >= 1 { (old(self)@.cursor - 1) as nat } else { 0 };
                final(self)@ == (ProofPanelView {
                    cursor: c,
                    scroll: followed_scroll(c as int, old(self)@.scroll as int, old(self)@.height as int) as nat,
                    ..old(self)@
                })
            }),
    {
        self.cursor = if self.cursor >= 1 { self.cursor - 1 } else { 0 };
        self.follow_cursor();
    }

    /// Takes the highlighted issue off the list (after ignoring it) and returns
    /// it. Several issues may share a range; the one removed is the first with the
    /// same range and rule.
    pub fn remove_current(&mut self) -> (r: Option<Issue>)
        requires
            old(self).wf(),
        ensures
            final(self).wf(),
            ({
                let vis = visible_issues(old(self)@);
                let c0 = old(self)@.cursor;
                if c0 < vis.len() {
                    let p = first_same(old(self)@.issues, vis[c0 as int]);
                    let rest = old(self)@.issues.remove(p);
                    let c = clamp_index(c0, visible_of(rest, old(self)@.show_folded).len());
                    &&& 0 <= p < old(self)@.issues.len()
                    &&& r is Some && r.unwrap()@ == old(self)@.issues[p]
                    &&& final(self)@ == (ProofPanelView {
                        issues: rest,
                        cursor: c,
                        scroll: followed_scroll(c as int, old(self)@.scroll as int, old(self)@.height as int) as nat,
                        ..old(self)@
                    })
                } else {
                    r is None && final(self)@ == old(self)@
                }
            }),
    {
        let ghost iv = issues_view(self.issues@);
        let target = match self.current() {
            Some(t) => t,
            None => {
                return None;
            },
        };
        proof {
            lemma_first_same(iv, target@);
            lemma_visible_member(iv, self.show_folded, self.cursor as int);
            let m = choose|m: int| 0 <= m < iv.len() && iv[m] == visible_of(iv, self.show_folded)[self.cursor as int];
            assert(same_place(iv[m], target@));
        }
        let mut pos: usize = 0;
        while pos < self.issues.len()
            invariant
                pos <= self.issues@.len(),
                iv == issues_view(self.issues@),
                self.wf(),
                forall|k: int| 0 <= k < pos ==> !same_place(#[trigger] iv[k], target@),
                0 <= first_same(iv, target@) < iv.len(),
                same_place(iv[first_same(iv, target@)], target@),
                forall|k: int| 0 <= k < first_same(iv, target@) ==> !same_place(#[trigger] iv[k], target@),
            ensures
                pos <= self.issues@.len(),
                pos < self.issues@.len() ==> same_place(iv[pos as int], target@),
                forall|k: int| 0 <= k < pos ==> !same_place(#[trigger] iv[k], target@),
            decreases self.issues@.len() - pos,
        {
            let hit = self.issues[pos].range.start == target.range.start && self.issues[pos].range.end
                == target.range.end && str_eq(self.issues[pos].rule_id.as_str(), target.rule_id.as_str());
            proof {
                assert(iv[pos as int] == self.issues@[pos as int]@);
            }
            if hit {
                break;
            }
            pos = pos + 1;
        }
        proof {
            if pos < iv.len() {
                assert(iv[pos as int] == self.issues@[pos as int]@);
            }
            assert(pos as int == first_same(iv, target@));
        }
        let removed = self.issues.remove(pos);
        proof {
            assert(issues_view(self.issues@) =~= iv.remove(pos as int));
        }
        let n = self.visible_count();
        self.cursor = if n == 0 { 0 } else if self.cursor < n { self.cursor } else { n - 1 };
        self.follow_cursor();
        Some(removed)
    }

    /// The lines to draw: a header per severity group, then its issues.
    pub fn rows(&self) -> (r: Vec<Row<'_>>)
        ensures
            r@.map_values(|x: Row| x@) == panel_rows(visible_issues(self@), visible_issues(self@).len() as int, self@.cursor),
    {
        let vis = self.visible();
        let ghost vv = vis@.map_values(|x: &Issue| x@);
        let mut rows: Vec<Row> = Vec::new();
        let mut k: usize = 0;
        proof {
            assert(rows@.map_values(|x: Row| x@) =~= Seq::<RowV>::empty());
        }
        while k < vis.len()
            invariant
                k <= vis@.len(),
                vv == vis@.map_values(|x: &Issue| x@),
                vv == visible_issues(self@),
                rows@.map_values(|x: Row| x@) == panel_rows(vv, k as int, self@.cursor),
            decreases vis@.len() - k,
        {
            let ghost before = rows@.map_values(|x: Row| x@);
            let sev = vis[k].severity;
            let fresh = k == 0 || vis[k - 1].severity != sev;
            proof {
                assert(vv[k as int] == vis@[k as int]@);
                if k > 0 {
                    assert(vv[k - 1] == vis@[k - 1]@);
                }
            }
            if fresh {
                let count = count_severity(&vis, sev);
                rows.push(Row::Header(sev, count));
            }
            let ghost mid = rows@.map_values(|x: Row| x@);
            proof {
                assert(mid =~= before + (if k == 0 || vv[k - 1].severity != vv[k as int].severity {
                    seq![RowV::Header(vv[k as int].severity, severity_count(vv, vv[k as int].severity))]
                } else {
                    Seq::empty()
                }));
            }
            rows.push(Row::Issue { index: k, issue: vis[k], selected: k == self.cursor });
            proof {
                assert(rows@.map_values(|x: Row| x@) =~= mid + seq![
                    RowV::Issue { index: k as nat, issue: vv[k as int], selected: k == self@.cursor },
                ]);
            }
            k = k + 1;
        }
        rows
    }
}


// ---- keys ----

/// What the caller is asked to do after a key in the proofreading panel.
#[derive(Debug)]
pub enum ProofAction {
    Nothing,
    Close,
    /// `a`: put the highlighted issue's first suggestion in the text.
    ApplySuggestion,
    /// `I`: ignore the highlighted issue for good.
    IgnoreForever,
    /// `i`: this issue was taken off the list for now; its marks in the text go too.
    IgnoredOnce(Issue),
    /// Enter: close the panel and put the cursor at this byte of the text.
    Jump(usize),
}

/// Esc, F7 or `q`.
pub open spec fn closes_proof(code: KeyCode) -> bool {
    code == KeyCode::Esc || code == KeyCode::F(7) || code == KeyCode::Char('q')
}

/// The panel after a key: Down or `j` and Up or `k` move among the visible
/// issues, `f` shows or folds the low-confidence ones, `i` takes the
/// highlighted issue off the list.
pub open spec fn proof_step(v: ProofPanelView, code: KeyCode) -> ProofPanelView {
    let vis = visible_issues(v);
    let n = vis.len();
    if code == KeyCode::Down || code == KeyCode::Char('j') {
        let c = if n > 0 { if v.cursor + 1 < n { v.cursor + 1 } else { (n - 1) as nat } } else { v.cursor };
        ProofPanelView { cursor: c, scroll: followed_scroll(c as int, v.scroll as int, v.height as int) as nat, ..v }
    } else if code == KeyCode::Up || code == KeyCode::Char('k') {
        let c: nat = if v.cursor >= 1 { (v.cursor - 1) as nat } else { 0 };
        ProofPanelView { cursor: c, scroll: followed_scroll(c as int, v.scroll as int, v.height as int) as nat, ..v }
    } else if code == KeyCode::Char('f') {
        if low_count(v.issues) == 0 {
            v
        } else {
            let shown = !v.show_folded;
            let c = clamp_index(v.cursor, visible_of(v.issues, shown).len());
            ProofPanelView {
                show_folded: shown,
                cursor: c,
                scroll: followed_scroll(c as int, v.scroll as int, v.height as int) as nat,
                ..v
            }
        }
    } else if code == KeyCode::Char('i') {
        if v.cursor < n {
            let rest = v.issues.remove(first_same(v.issues, vis[v.cursor as int]));
            let c = clamp_index(v.cursor, visible_of(rest, v.show_folded).len());
            ProofPanelView {
                issues: rest,
                cursor: c,
                scroll: followed_scroll(c as int, v.scroll as int, v.height as int) as nat,
                ..v
            }
        } else {
            v
        }
    } else {
        v
    }
}

/// What a key asks of the caller.
pub open spec fn proof_action(v: ProofPanelView, code: KeyCode, a: ProofAction) -> bool {
    let vis = visible_issues(v);
    if code == KeyCode::Char('a') {
        a is ApplySuggestion
    } else if code == KeyCode::Char('I') {
        a is IgnoreForever
    } else if closes_proof(code) {
        a is Close
    } else if code == KeyCode::Char('i') && v.cursor < vis.len() {
        a matches ProofAction::IgnoredOnce(x) && x@ == v.issues[first_same(v.issues, vis[v.cursor as int])]
    } else if code == KeyCode::Enter && v.cursor < vis.len() {
        a == ProofAction::Jump(vis[v.cursor as int].start as usize)
    } else {
        a is Nothing
    }
}

impl ProofPanel {
    /// A key while the proofreading panel is on top.
    pub fn on_key(&mut self, code: KeyCode) -> (r: ProofAction)
        requires
            old(self).wf(),
        ensures
            final(self).wf(),
            final(self)@ == proof_step(old(self)@, code),
            proof_action(old(self)@, code, r),
    {
        if code == KeyCode::Char('a') {
            ProofAction::ApplySuggestion
        } else if code == KeyCode::Char('I') {
            ProofAction::IgnoreForever
        } else if code == KeyCode::Esc || code == KeyCode::F(7) || code == KeyCode::Char('q') {
            ProofAction::Close
        } else if code == KeyCode::Down || code == KeyCode::Char('j') {
            self.move_down();
            ProofAction::Nothing
        } else if code == KeyCode::Up || code == KeyCode::Char('k') {
            self.move_up();
            ProofAction::Nothing
        } else if code == KeyCode::Char('f') {
            self.toggle_folded();
            ProofAction::Nothing
        } else if code == KeyCode::Char('i') {
            match self.remove_current() {
                Some(x) => ProofAction::IgnoredOnce(x),
                None => ProofAction::Nothing,
            }
        } else if code == KeyCode::Enter {
            match self.current() {
                Some(x) => ProofAction::Jump(x.range.start),
                None => ProofAction::Nothing,
            }
        } else {
            ProofAction::Nothing
        }
    }
}

} // verus!
