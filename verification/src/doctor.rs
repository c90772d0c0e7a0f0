//! `mj doctor`: what the terminal can do, from the probed environment, and the
//! report printed from it. Where something is only inferred, the report says so.
use vstd::prelude::*;

use crate::font::{
    config_snippet, opt_view, spec_config_snippet, spec_expected_caps, spec_from_env,
    spec_label, spec_unsupported_reason, EnvProbe, FontCap, TerminalKind,
};
use crate::text::{concat2, display_width, push_str, repeat_seq, repeat_str, str_width, string_of};
use crate::theme::{spec_depth_from_env, ColorDepth};

verus! {

broadcast use vstd::string::group_string_axioms;

/// One finding.
pub struct Finding {
    pub item: String,
    pub value: String,
    /// What it rests on, and where we cannot be sure.
    pub note: String,
}

/// The whole report.
pub struct Report {
    pub findings: Vec<Finding>,
    /// The configuration snippet offered when the font cannot be changed.
    pub snippet: Option<String>,
}

pub type FindingV = (Seq<char>, Seq<char>, Seq<char>);

pub open spec fn findings_view(fs: Seq<Finding>) -> Seq<FindingV> {
    fs.map_values(|f: Finding| (f.item@, f.value@, f.note@))
}

pub open spec fn opt_string_view(o: Option<String>) -> Option<Seq<char>> {
    match o {
        Some(s) => Some(s@),
        None => None,
    }
}

pub open spec fn spec_yes_no(b: bool) -> Seq<char> {
    if b {
        "可改"@
    } else {
        "不可改"@
    }
}

/// Pieces joined with a separator.
pub open spec fn join_with(pieces: Seq<Seq<char>>, sep: Seq<char>) -> Seq<char>
    decreases pieces.len(),
{
    if pieces.len() == 0 {
        Seq::empty()
    } else if pieces.len() == 1 {
        pieces[0]
    } else {
        join_with(pieces.drop_last(), sep) + sep + pieces.last()
    }
}

pub open spec fn evidence_bits(e: EnvProbe) -> Seq<Seq<char>> {
    (if e.kitty_window_id is Some { seq!["KITTY_WINDOW_ID"@] } else { Seq::empty() })
        + (if e.wezterm_pane is Some { seq!["WEZTERM_PANE"@] } else { Seq::empty() })
        + (if e.wt_session is Some { seq!["WT_SESSION"@] } else { Seq::empty() })
        + (match e.term_program {
        Some(tp) => seq!["TERM_PROGRAM="@ + tp@],
        None => Seq::empty(),
    }) + (match e.term {
        Some(t) => seq!["TERM="@ + t@],
        None => Seq::empty(),
    })
}

/// The variables the detection went by, so the user can check them.
pub open spec fn spec_evidence(e: EnvProbe) -> Seq<char> {
    if evidence_bits(e).len() == 0 {
        "没有可用于判定的环境变量"@
    } else {
        "依据："@ + join_with(evidence_bits(e), "，"@)
    }
}

pub open spec fn spec_kind(e: EnvProbe) -> TerminalKind {
    spec_from_env(
        e.kitty_window_id is Some,
        e.wezterm_pane is Some,
        e.wt_session is Some,
        opt_view(e.term_program),
        opt_view(e.term),
    )
}

pub open spec fn spec_depth(e: EnvProbe) -> ColorDepth {
    spec_depth_from_env(opt_view(e.colorterm), opt_view(e.term), opt_view(e.term_program))
}

/// The findings, in order: terminal, true colour, font family, font size,
/// clipboard, keyboard protocol.
pub open spec fn spec_findings(e: EnvProbe) -> Seq<FindingV> {
    let kind = spec_kind(e);
    let caps = spec_expected_caps(kind);
    let truecolor = spec_depth(e) == ColorDepth::TrueColor;
    seq![
        ("终端"@, spec_label(kind)@, spec_evidence(e)),
        (
            "真彩色"@,
            if truecolor { "支持"@ } else { "按 256 色处理"@ },
            if truecolor {
                "主题颜色按 RGB 原样下发"@
            } else {
                "没探到 COLORTERM=truecolor；主题会自动取 256 色近似。终端其实支持的话，设 COLORTERM=truecolor 即可"@
            },
        ),
        (
            "字体·字体族"@,
            spec_yes_no(caps.family),
            if caps.family {
                "推断可用（OSC 50）。本项未经真机验证，以实际效果为准"@
            } else {
                spec_unsupported_reason(kind)
            },
        ),
        (
            "字体·字号"@,
            spec_yes_no(caps.size),
            if caps.size {
                "推断可用（kitty 远程控制）。需终端侧 allow_remote_control，否则会失败"@
            } else {
                spec_unsupported_reason(kind)
            },
        ),
        ("剪贴板"@, "OSC 52（尽力而为）"@, "终端不回话，无从确认是否真放进了剪贴板；ssh 场景下也能用"@),
        (
            "键盘协议"@,
            if kind == TerminalKind::Kitty || kind == TerminalKind::WezTerm {
                "可能支持 kitty 协议"@
            } else {
                "传统模式"@
            },
            "传统模式下 Ctrl+Shift+S、Ctrl+Tab 到不了程序（终端不编码 Shift），故打快照用 F9"@,
        ),
    ]
}

/// The snippet is offered only when no font capability is available.
pub open spec fn spec_snippet(e: EnvProbe, family: Seq<char>, size: Seq<char>) -> Option<Seq<char>> {
    let caps = spec_expected_caps(spec_kind(e));
    if !caps.family && !caps.size && !caps.reset {
        spec_config_snippet(spec_kind(e), family, size)
    } else {
        None
    }
}

fn yes_no(b: bool) -> (r: String)
    ensures
        r@ == spec_yes_no(b),
{
    if b {
        string_of("可改")
    } else {
        string_of("不可改")
    }
}

fn opt_str(o: &Option<String>) -> (r: Option<&str>)
    ensures
        crate::theme::opt_str_view(r) == opt_view(*o),
{
    match o {
        Some(s) => Some(s.as_str()),
        None => None,
    }
}

fn join_strings(pieces: &Vec<String>, sep: &str) -> (r: String)
    ensures
        r@ == join_with(pieces@.map_values(|p: String| p@), sep@),
{
    let ghost pv = pieces@.map_values(|p: String| p@);
    let mut s = String::new();
    let mut i: usize = 0;
    proof {
        assert(pv.take(0) =~= Seq::<Seq<char>>::empty());
    }
    while i < pieces.len()
        invariant
            i <= pieces@.len(),
            pv == pieces@.map_values(|p: String| p@),
            s@ == join_with(pv.take(i as int), sep@),
        decreases pieces@.len() - i,
    {
        proof {
            assert(pv.take(i + 1).drop_last() == pv.take(i as int));
            assert(pv.take(i + 1).last() == pieces@[i as int]@);
        }
        if i > 0 {
            push_str(&mut s, sep);
        } else {
            proof {
                assert(pv.take(1)[0] == pieces@[0]@);
            }
        }
        push_str(&mut s, pieces[i].as_str());
        i = i + 1;
    }
    proof {
        assert(pv.take(pieces@.len() as int) == pv);
    }
    s
}

/// Says which variables the detection rests on.
fn describe_evidence(e: &EnvProbe) -> (r: String)
    ensures
        r@ == spec_evidence(*e),
{
    let mut bits: Vec<String> = Vec::new();
    let ghost mut expect: Seq<Seq<char>> = Seq::empty();
    if e.kitty_window_id.is_some() {
        bits.push(string_of("KITTY_WINDOW_ID"));
    }
    if e.wezterm_pane.is_some() {
        bits.push(string_of("WEZTERM_PANE"));
    }
    if e.wt_session.is_some() {
        bits.push(string_of("WT_SESSION"));
    }
    match &e.term_program {
        Some(tp) => bits.push(concat2("TERM_PROGRAM=", tp.as_str())),
        None => {},
    }
    match &e.term {
        Some(t) => bits.push(concat2("TERM=", t.as_str())),
        None => {},
    }
    proof {
        assert(bits@.map_values(|p: String| p@) =~= evidence_bits(*e));
    }
    if bits.len() == 0 {
        string_of("没有可用于判定的环境变量")
    } else {
        let j = join_strings(&bits, "，");
        concat2("依据：", j.as_str())
    }
}

fn finding(item: &str, value: String, note: String) -> (r: Finding)
    ensures
        r.item@ == item@,
        r.value@ == value@,
        r.note@ == note@,
{
    Finding { item: string_of(item), value, note }
}

impl Report {
    /// Builds the report from the probed environment. `font_size` is the font
    /// size as it is to be written in a configuration snippet.
    pub fn build(env: &EnvProbe, font_family: &str, font_size: &str) -> (r: Self)
        ensures
            findings_view(r.findings@) == spec_findings(*env),
            opt_string_view(r.snippet) == spec_snippet(*env, font_family@, font_size@),
    {
        let kind = TerminalKind::from_env(env);
        let depth = ColorDepth::from_env(opt_str(&env.colorterm), opt_str(&env.term), opt_str(&env.term_program));
        let caps = kind.expected_caps();
        let truecolor = match depth {
            ColorDepth::TrueColor => true,
            ColorDepth::Ansi256 => false,
        };
        let mut findings: Vec<Finding> = Vec::new();
        findings.push(finding("终端", string_of(kind.label()), describe_evidence(env)));
        findings.push(finding(
            "真彩色",
            if truecolor { string_of("支持") } else { string_of("按 256 色处理") },
            if truecolor {
                string_of("主题颜色按 RGB 原样下发")
            } else {
                string_of(
                    "没探到 COLORTERM=truecolor；主题会自动取 256 色近似。终端其实支持的话，设 COLORTERM=truecolor 即可",
                )
            },
        ));
        findings.push(finding(
            "字体·字体族",
            yes_no(caps.contains(FontCap::SET_FAMILY())),
            if caps.contains(FontCap::SET_FAMILY()) {
                string_of("推断可用（OSC 50）。本项未经真机验证，以实际效果为准")
            } else {
                kind.unsupported_reason()
            },
        ));
        findings.push(finding(
            "字体·字号",
            yes_no(caps.contains(FontCap::SET_SIZE())),
            if caps.contains(FontCap::SET_SIZE()) {
                string_of("推断可用（kitty 远程控制）。需终端侧 allow_remote_control，否则会失败")
            } else {
                kind.unsupported_reason()
            },
        ));
        findings.push(finding(
            "剪贴板",
            string_of("OSC 52（尽力而为）"),
            string_of("终端不回话，无从确认是否真放进了剪贴板；ssh 场景下也能用"),
        ));
        findings.push(finding(
            "键盘协议",
            match kind {
                TerminalKind::Kitty | TerminalKind::WezTerm => string_of("可能支持 kitty 协议"),
                _ => string_of("传统模式"),
            },
            string_of("传统模式下 Ctrl+Shift+S、Ctrl+Tab 到不了程序（终端不编码 Shift），故打快照用 F9"),
        ));
        let snippet = if caps.is_empty() {
            config_snippet(kind, font_family, font_size)
        } else {
            None
        };
        proof {
            assert(findings_view(findings@) =~= spec_findings(*env));
        }
        Report { findings, snippet }
    }
}


// ---- rendering ----

/// Index of the first line feed from `i` on; -1 when none.
pub open spec fn first_nl(s: Seq<char>, i: int) -> int
    decreases s.len() - i,
{
    if i >= s.len() {
        -1
    } else if s[i] == '\n' {
        i
    } else {
        first_nl(s, i + 1)
    }
}

proof fn lemma_first_nl_range(s: Seq<char>, i: int)
    requires
        0 <= i,
    ensures
        first_nl(s, i) == -1 || (i <= first_nl(s, i) < s.len() && s[first_nl(s, i)] == '\n'),
    decreases s.len() - i,
{
    if i < s.len() && s[i] != '\n' {
        lemma_first_nl_range(s, i + 1);
    }
}

proof fn lemma_first_nl_at(s: Seq<char>, j: int, k: int)
    requires
        0 <= j <= k <= s.len(),
        forall|m: int| j <= m < k ==> s[m] != '\n',
        k == s.len() || s[k] == '\n',
    ensures
        first_nl(s, j) == if k == s.len() { -1 } else { k },
    decreases k - j,
{
    if j < k {
        lemma_first_nl_at(s, j + 1, k);
    }
}

pub open spec fn strip_cr(l: Seq<char>) -> Seq<char> {
    if l.len() > 0 && l.last() == '\r' {
        l.drop_last()
    } else {
        l
    }
}

/// `str::lines`: pieces between line feeds, a carriage return before a line
/// feed going with it; a final line feed adds no empty line.
pub open spec fn std_lines(s: Seq<char>) -> Seq<Seq<char>>
    decreases s.len(),
{
    if s.len() == 0 {
        Seq::empty()
    } else {
        let k = first_nl(s, 0);
        if k < 0 || k >= s.len() {
            seq![s]
        } else {
            seq![strip_cr(s.take(k))] + std_lines(s.skip(k + 1))
        }
    }
}

/// Splits text into lines as `str::lines` does.
pub(crate) fn lines_of(s: &str) -> (r: Vec<String>)
    ensures
        r@.map_values(|l: String| l@) == std_lines(s@),
{
    let v = crate::text::chars_of(s);
    let n = v.len();
    let mut out: Vec<String> = Vec::new();
    let mut start: usize = 0;
    let mut i: usize = 0;
    proof {
        assert(v@.skip(0) == v@);
        assert(out@.map_values(|l: String| l@) + std_lines(v@.skip(0)) =~= std_lines(v@));
    }
    while i < n
        invariant
            start <= i <= n == v@.len(),
            v@ == s@,
            forall|m: int| start <= m < i ==> v@[m] != '\n',
            out@.map_values(|l: String| l@) + std_lines(v@.skip(start as int)) == std_lines(v@),
        decreases n - i,
    {
        if v[i] == '\n' {
            let ghost rest = v@.skip(start as int);
            proof {
                lemma_first_nl_at(rest, 0, i - start);
                assert(rest.take(i - start) == v@.subrange(start as int, i as int));
                assert(rest.skip(i - start + 1) == v@.skip(i + 1));
            }
            let mut piece = String::new();
            let mut e = i;
            if e > start && v[e - 1] == '\r' {
                e = e - 1;
            }
            let mut j = start;
            while j < e
                invariant
                    start <= j <= e <= i < n == v@.len(),
                    piece@ == v@.subrange(start as int, j as int),
                decreases e - j,
            {
                crate::text::push_char(&mut piece, v[j]);
                proof {
                    assert(v@.subrange(start as int, j + 1) == v@.subrange(start as int, j as int).push(v@[j as int]));
                }
                j = j + 1;
            }
            proof {
                assert(piece@ == strip_cr(v@.subrange(start as int, i as int)));
            }
            let ghost before = out@.map_values(|l: String| l@);
            out.push(piece);
            proof {
                assert(out@.map_values(|l: String| l@) =~= before.push(strip_cr(rest.take(i - start))));
                assert(before + std_lines(rest) =~= out@.map_values(|l: String| l@) + std_lines(v@.skip(i + 1)));
            }
            start = i + 1;
        }
        i = i + 1;
    }
    if start < n {
        let ghost rest = v@.skip(start as int);
        proof {
            lemma_first_nl_at(rest, 0, rest.len() as int);
        }
        let mut piece = String::new();
        let mut j = start;
        while j < n
            invariant
                start <= j <= n == v@.len(),
                piece@ == v@.subrange(start as int, j as int),
            decreases n - j,
        {
            crate::text::push_char(&mut piece, v[j]);
            proof {
                assert(v@.subrange(start as int, j + 1) == v@.subrange(start as int, j as int).push(v@[j as int]));
            }
            j = j + 1;
        }
        let ghost before = out@.map_values(|l: String| l@);
        out.push(piece);
        proof {
            assert(piece@ == rest);
            assert(out@.map_values(|l: String| l@) =~= before.push(rest));
            assert(before + seq![rest] =~= before.push(rest));
        }
    } else {
        proof {
            assert(v@.skip(start as int).len() == 0);
            assert(out@.map_values(|l: String| l@) + Seq::<Seq<char>>::empty() =~= out@.map_values(|l: String| l@));
        }
    }
    out
}

/// The widest item name.
pub open spec fn widest(fs: Seq<FindingV>) -> nat
    decreases fs.len(),
{
    if fs.len() == 0 {
        0
    } else {
        let w = widest(fs.drop_last());
        let x = str_width(fs.last().0);
        if fs.len() == 1 || x > w {
            x
        } else {
            w
        }
    }
}

/// The column the values start at: the widest item name (8 with no findings).
pub open spec fn item_column(fs: Seq<FindingV>) -> nat {
    if fs.len() == 0 {
        8
    } else {
        widest(fs)
    }
}

pub open spec fn sat_sub(a: nat, b: nat) -> nat {
    if a >= b {
        (a - b) as nat
    } else {
        0
    }
}

/// One finding as printed: the item padded to the column, the value, and the
/// note on a line of its own when there is one.
pub open spec fn finding_text(f: FindingV, w: nat) -> Seq<char> {
    f.0 + repeat_seq(" "@, sat_sub(w, str_width(f.0))) + "  "@ + f.1 + "\n"@ + (if f.2.len() > 0 {
        repeat_seq(" "@, w) + "  └ "@ + f.2 + "\n"@
    } else {
        Seq::empty()
    })
}

pub open spec fn findings_text(fs: Seq<FindingV>, w: nat) -> Seq<char>
    decreases fs.len(),
{
    if fs.len() == 0 {
        Seq::empty()
    } else {
        findings_text(fs.drop_last(), w) + finding_text(fs.last(), w)
    }
}

pub open spec fn indented(ls: Seq<Seq<char>>) -> Seq<char>
    decreases ls.len(),
{
    if ls.len() == 0 {
        Seq::empty()
    } else {
        indented(ls.drop_last()) + "    "@ + ls.last() + "\n"@
    }
}

/// The printed report.
pub open spec fn spec_render(fs: Seq<FindingV>, snippet: Option<Seq<char>>) -> Seq<char> {
    "墨简 · 终端能力报告\n\n"@ + findings_text(fs, item_column(fs)) + match snippet {
        None => Seq::empty(),
        Some(s) => "\n改不了字体，但可以把下面这段贴进终端配置，重启终端后生效：\n\n"@ + indented(std_lines(s)),
    }
}

impl Report {
    /// The report as printable text.
    #[verifier::rlimit(40)]
    pub fn render(&self) -> (r: String)
        ensures
            r@ == spec_render(findings_view(self.findings@), opt_string_view(self.snippet)),
    {
        let ghost fv = findings_view(self.findings@);
        let n = self.findings.len();
        let mut w: usize = 8;
        if n > 0 {
            w = display_width(self.findings[0].item.as_str());
            proof {
                assert(fv.take(1).drop_last() =~= Seq::<FindingV>::empty());
                assert(fv.take(1).last() == fv[0]);
            }
            let mut k: usize = 1;
            while k < n
                invariant
                    1 <= k <= n == self.findings@.len(),
                    fv == findings_view(self.findings@),
                    w == widest(fv.take(k as int)),
                decreases n - k,
            {
                let x = display_width(self.findings[k].item.as_str());
                proof {
                    assert(fv.take(k + 1).drop_last() == fv.take(k as int));
                    assert(fv.take(k + 1).last() == fv[k as int]);
                }
                if x > w {
                    w = x;
                }
                k = k + 1;
            }
            proof {
                assert(fv.take(n as int) == fv);
            }
        }
        let mut s = string_of("墨简 · 终端能力报告\n\n");
        let ghost head = s@;
        let mut i: usize = 0;
        proof {
            assert(fv.take(0) =~= Seq::<FindingV>::empty());
            assert(s@ =~= head + findings_text(fv.take(0), w as nat));
        }
        while i < n
            invariant
                i <= n == self.findings@.len(),
                fv == findings_view(self.findings@),
                w == item_column(fv),
                head == "墨简 · 终端能力报告\n\n"@,
                s@ == head + findings_text(fv.take(i as int), w as nat),
            decreases n - i,
        {
            let f = &self.findings[i];
            let iw = display_width(f.item.as_str());
            let pad = if w >= iw { w - iw } else { 0 };
            let ghost before = s@;
            push_str(&mut s, f.item.as_str());
            push_str(&mut s, repeat_str(" ", pad).as_str());
            push_str(&mut s, "  ");
            push_str(&mut s, f.value.as_str());
            push_str(&mut s, "\n");
            if !f.note.as_str().is_empty() {
                push_str(&mut s, repeat_str(" ", w).as_str());
                push_str(&mut s, "  └ ");
                push_str(&mut s, f.note.as_str());
                push_str(&mut s, "\n");
            }
            proof {
                reveal_strlit(" ");
                assert(fv[i as int] == (f.item@, f.value@, f.note@));
                assert(fv.take(i + 1).drop_last() == fv.take(i as int));
                assert(fv.take(i + 1).last() == fv[i as int]);
                assert(s@ =~= before + finding_text(fv[i as int], w as nat));
            }
            i = i + 1;
        }
        proof {
            assert(fv.take(n as int) == fv);
        }
        match &self.snippet {
            None => {
                proof {
                    assert(s@ =~= spec_render(fv, opt_string_view(self.snippet)));
                }
            },
            Some(snip) => {
                let ghost body = s@;
                push_str(&mut s, "\n改不了字体，但可以把下面这段贴进终端配置，重启终端后生效：\n\n");
                let ls = lines_of(snip.as_str());
                let ghost lv = ls@.map_values(|l: String| l@);
                let ghost mid = s@;
                let mut j: usize = 0;
                proof {
                    assert(lv.take(0) =~= Seq::<Seq<char>>::empty());
                    assert(s@ =~= mid + indented(lv.take(0)));
                }
                while j < ls.len()
                    invariant
                        j <= ls@.len(),
                        lv == ls@.map_values(|l: String| l@),
                        s@ == mid + indented(lv.take(j as int)),
                    decreases ls@.len() - j,
                {
                    let ghost before = s@;
                    push_str(&mut s, "    ");
                    push_str(&mut s, ls[j].as_str());
                    push_str(&mut s, "\n");
                    proof {
                        assert(lv.take(j + 1).drop_last() == lv.take(j as int));
                        assert(lv.take(j + 1).last() == ls@[j as int]@);
                        assert(s@ =~= before + "    "@ + ls@[j as int]@ + "\n"@);
                    }
                    j = j + 1;
                }
                proof {
                    assert(lv.take(ls@.len() as int) == lv);
                    assert(s@ =~= spec_render(fv, opt_string_view(self.snippet)));
                }
            },
        }
        s
    }
}


/// The findings before `k` are printed first: their text begins the text of all.
proof fn lemma_findings_text_prefix(fs: Seq<FindingV>, w: nat, k: int)
    requires
        0 <= k <= fs.len(),
    ensures
        findings_text(fs.take(k), w).len() <= findings_text(fs, w).len(),
        findings_text(fs, w).take(findings_text(fs.take(k), w).len() as int) == findings_text(fs.take(k), w),
    decreases fs.len() - k,
{
    if k == fs.len() {
        assert(fs.take(k) =~= fs);
        assert(findings_text(fs, w).take(findings_text(fs, w).len() as int) =~= findings_text(fs, w));
    } else {
        lemma_findings_text_prefix(fs, w, k + 1);
        assert(fs.take(k + 1).drop_last() =~= fs.take(k));
        let a = findings_text(fs.take(k), w);
        let b = findings_text(fs.take(k + 1), w);
        assert(b == a + finding_text(fs[k], w));
        assert(findings_text(fs, w).take(a.len() as int) =~= b.take(a.len() as int));
        assert(b.take(a.len() as int) =~= a);
    }
}

/// The report lists every finding, in order, each as its own block: after the
/// header and the findings before it comes the item, padded to the value
/// column, two spaces and the value on one line, then the note on a line of
/// its own when there is one. With a snippet, the report ends with the
/// snippet's lines, each indented by four spaces.
pub proof fn law_report_lists_each_finding(fs: Seq<FindingV>, snippet: Option<Seq<char>>, i: int)
    requires
        0 <= i < fs.len(),
    ensures
        ({
            let r = spec_render(fs, snippet);
            let w = item_column(fs);
            let head = "墨简 · 终端能力报告\n\n"@;
            let at = (head.len() + findings_text(fs.take(i), w).len()) as int;
            let f = fs[i];
            let line = f.0 + repeat_seq(" "@, sat_sub(w, str_width(f.0))) + "  "@ + f.1 + "\n"@;
            &&& r.take(head.len() as int) == head
            &&& r.subrange(at, at + finding_text(f, w).len() as int) == finding_text(f, w)
            &&& finding_text(f, w).take(line.len() as int) == line
            &&& f.2.len() > 0 ==> finding_text(f, w).skip(line.len() as int) == repeat_seq(" "@, w) + "  └ "@ + f.2
                + "\n"@
            &&& f.2.len() == 0 ==> finding_text(f, w).len() == line.len()
            &&& snippet matches Some(sn) ==> r.skip(r.len() - indented(std_lines(sn)).len()) == indented(std_lines(sn))
        }),
{
    let w = item_column(fs);
    let head = "墨简 · 终端能力报告\n\n"@;
    let all = findings_text(fs, w);
    let a = findings_text(fs.take(i), w);
    let f = fs[i];
    let ft = finding_text(f, w);
    lemma_findings_text_prefix(fs, w, i + 1);
    assert(fs.take(i + 1).drop_last() =~= fs.take(i));
    assert(findings_text(fs.take(i + 1), w) == a + ft);
    let tail = match snippet {
        None => Seq::<char>::empty(),
        Some(sn) => "\n改不了字体，但可以把下面这段贴进终端配置，重启终端后生效：\n\n"@ + indented(std_lines(sn)),
    };
    let r = spec_render(fs, snippet);
    assert(r == head + all + tail);
    assert(all.take((a + ft).len() as int) == a + ft);
    assert(r.subrange((head.len() + a.len()) as int, (head.len() + a.len() + ft.len()) as int) =~= (a + ft).subrange(a.len() as int, (a + ft).len() as int));
    assert((a + ft).subrange(a.len() as int, (a + ft).len() as int) =~= ft);
    assert(r.take(head.len() as int) =~= head);
    let line = f.0 + repeat_seq(" "@, sat_sub(w, str_width(f.0))) + "  "@ + f.1 + "\n"@;
    assert(ft.take(line.len() as int) =~= line);
    if f.2.len() > 0 {
        assert(ft.skip(line.len() as int) =~= repeat_seq(" "@, w) + "  └ "@ + f.2 + "\n"@);
    } else {
        assert(ft =~= line);
    }
    if snippet is Some {
        let sn = snippet.unwrap();
        let ind = indented(std_lines(sn));
        assert(r.skip(r.len() - ind.len()) =~= ind);
    }
}

} // verus!
