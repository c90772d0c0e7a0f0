//! The character-card form: one field per card attribute, Tab/j/k to move,
//! Enter or `i` to edit, Ctrl+S to save. Editing appends at the end of the field
//! and Backspace removes one whole grapheme cluster, never half of one.
use vstd::prelude::*;

use crate::editor::rope::graphemes;
use crate::editor::textspec::{concat_all, graphemes_of, is_partition};
use crate::keymap::{ConfigValue, ConfigValueV, KeyCode, KeyModifiers};
use crate::model::{
    copy_custom, copy_relations, custom_view, opt_chapter, relations_view, ChapterId, Character, CharacterId, Relation,
};
use crate::text::{push_char, push_str, string_from_chars, to_owned_string, trim_chars, trim_seq};

verus! {

/// A field of the character form.
#[derive(Debug, Clone, Copy, PartialEq, Eq, Structural)]
pub enum FieldKey {
    Name,
    Aliases,
    Role,
    Gender,
    Age,
    Background,
    Personality,
    Appearance,
    Habits,
    Speech,
    Notes,
}

pub open spec fn spec_field_label(k: FieldKey) -> &'static str {
    match k {
        FieldKey::Name => "名字",
        FieldKey::Aliases => "别名（、分隔）",
        FieldKey::Role => "身份",
        FieldKey::Gender => "性别",
        FieldKey::Age => "年龄",
        FieldKey::Background => "背景",
        FieldKey::Personality => "性格",
        FieldKey::Appearance => "外貌",
        FieldKey::Habits => "习惯",
        FieldKey::Speech => "语言风格",
        FieldKey::Notes => "备注",
    }
}

/// Multi-line fields take Enter as a line break; single-line fields end editing on it.
pub open spec fn spec_is_multiline(k: FieldKey) -> bool {
    match k {
        FieldKey::Background | FieldKey::Personality | FieldKey::Appearance | FieldKey::Habits
        | FieldKey::Speech | FieldKey::Notes => true,
        _ => false,
    }
}

impl FieldKey {
    pub fn label(self) -> (r: &'static str)
        ensures
            r == spec_field_label(self),
    {
        match self {
            FieldKey::Name => "名字",
            FieldKey::Aliases => "别名（、分隔）",
            FieldKey::Role => "身份",
            FieldKey::Gender => "性别",
            FieldKey::Age => "年龄",
            FieldKey::Background => "背景",
            FieldKey::Personality => "性格",
            FieldKey::Appearance => "外貌",
            FieldKey::Habits => "习惯",
            FieldKey::Speech => "语言风格",
            FieldKey::Notes => "备注",
        }
    }

    pub fn is_multiline(self) -> (r: bool)
        ensures
            r == spec_is_multiline(self),
    {
        matches!(
            self,
            FieldKey::Background | FieldKey::Personality | FieldKey::Appearance | FieldKey::Habits
                | FieldKey::Speech | FieldKey::Notes
        )
    }
}


/// A field of the form.
pub struct FormField {
    pub key: FieldKey,
    pub value: String,
}

pub struct CharacterForm {
    /// The card being edited.
    id: CharacterId,
    fields: Vec<FormField>,
    focus: usize,
    editing: bool,
    dirty: bool,
    /// What the form does not edit, kept for saving: relations, first
    /// appearance, custom attributes.
    relations: Vec<Relation>,
    first_appearance: Option<ChapterId>,
    custom: Vec<(String, ConfigValue)>,
}

pub struct CharacterFormView {
    pub id: Seq<char>,
    pub fields: Seq<(FieldKey, Seq<char>)>,
    pub focus: nat,
    pub editing: bool,
    pub dirty: bool,
    pub relations: Seq<(Seq<char>, Seq<char>)>,
    pub first_appearance: Option<Seq<char>>,
    pub custom: Seq<(Seq<char>, ConfigValueV)>,
}

pub open spec fn fields_view(fs: Seq<FormField>) -> Seq<(FieldKey, Seq<char>)> {
    fs.map_values(|f: FormField| (f.key, f.value@))
}

impl View for CharacterForm {
    type V = CharacterFormView;

    closed spec fn view(&self) -> CharacterFormView {
        CharacterFormView {
            id: self.id.0@,
            fields: fields_view(self.fields@),
            focus: self.focus as nat,
            editing: self.editing,
            dirty: self.dirty,
            relations: relations_view(self.relations@),
            first_appearance: opt_chapter(self.first_appearance),
            custom: custom_view(self.custom@),
        }
    }
}

/// Pieces joined with a separator.
pub open spec fn join_seq(pieces: Seq<Seq<char>>, sep: Seq<char>) -> Seq<char>
    decreases pieces.len(),
{
    if pieces.len() == 0 {
        Seq::empty()
    } else if pieces.len() == 1 {
        pieces[0]
    } else {
        join_seq(pieces.drop_last(), sep) + sep + pieces.last()
    }
}

/// The form's fields for a card, in order; aliases shown joined by "、".
pub open spec fn spec_form_fields(c: Character) -> Seq<(FieldKey, Seq<char>)> {
    seq![
        (FieldKey::Name, c.name@),
        (FieldKey::Aliases, join_seq(c.aliases@.map_values(|a: String| a@), "、"@)),
        (FieldKey::Role, c.role@),
        (FieldKey::Gender, c.gender@),
        (FieldKey::Age, c.age@),
        (FieldKey::Background, c.background@),
        (FieldKey::Personality, c.personality@),
        (FieldKey::Appearance, c.appearance@),
        (FieldKey::Habits, c.habits@),
        (FieldKey::Speech, c.speech@),
        (FieldKey::Notes, c.notes@),
    ]
}

/// Separators between aliases.
pub open spec fn is_alias_sep(c: char) -> bool {
    c == '、' || c == ',' || c == '，'
}

/// Index of the first separator from `i` on; -1 when none.
pub open spec fn first_sep(s: Seq<char>, i: int) -> int
    decreases s.len() - i,
{
    if i >= s.len() || i < 0 {
        -1
    } else if is_alias_sep(s[i]) {
        i
    } else {
        first_sep(s, i + 1)
    }
}

pub proof fn lemma_first_sep(s: Seq<char>, j: int, k: int)
    requires
        0 <= j <= k <= s.len(),
        forall|m: int| j <= m < k ==> !is_alias_sep(#[trigger] s[m]),
        k == s.len() || is_alias_sep(s[k]),
    ensures
        first_sep(s, j) == if k == s.len() { -1 } else { k },
    decreases k - j,
{
    if j < k {
        lemma_first_sep(s, j + 1, k);
    }
}

/// The pieces between separators (an empty text gives one empty piece).
pub open spec fn split_aliases(s: Seq<char>) -> Seq<Seq<char>>
    decreases s.len(),
{
    let k = first_sep(s, 0);
    if k < 0 || k >= s.len() {
        seq![s]
    } else {
        seq![s.take(k)] + split_aliases(s.skip(k + 1))
    }
}

/// The aliases typed in the field: split at "、", "," or "，", trimmed, empty ones dropped.
pub open spec fn parse_aliases(s: Seq<char>) -> Seq<Seq<char>> {
    split_aliases(s).map_values(|p: Seq<char>| trim_seq(p)).filter(|p: Seq<char>| p.len() > 0)
}

/// The value of the field with the given key (the last one with it; empty when none).
pub open spec fn field_value(fs: Seq<(FieldKey, Seq<char>)>, k: FieldKey) -> Seq<char>
    decreases fs.len(),
{
    if fs.len() == 0 {
        Seq::empty()
    } else if fs.last().0 == k {
        fs.last().1
    } else {
        field_value(fs.drop_last(), k)
    }
}

/// Trims a value and adds it to the aliases when it is not empty.
fn push_alias(out: &mut Vec<String>, piece: &Vec<char>)
    ensures
        final(out)@.map_values(|a: String| a@) == if trim_seq(piece@).len() > 0 {
            old(out)@.map_values(|a: String| a@).push(trim_seq(piece@))
        } else {
            old(out)@.map_values(|a: String| a@)
        },
{
    let t = trim_chars(piece);
    if t.len() > 0 {
        let s = string_from_chars(&t);
        let ghost before = out@.map_values(|a: String| a@);
        out.push(s);
        proof {
            assert(out@.map_values(|a: String| a@) =~= before.push(trim_seq(piece@)));
        }
    }
}

/// Splits the aliases field.
pub fn split_alias_text(s: &str) -> (r: Vec<String>)
    ensures
        r@.map_values(|a: String| a@) == parse_aliases(s@),
{
    let v = crate::text::chars_of(s);
    let n = v.len();
    let ghost f = |p: Seq<char>| trim_seq(p);
    let ghost keep = |p: Seq<char>| p.len() > 0;
    let mut out: Vec<String> = Vec::new();
    let mut piece: Vec<char> = Vec::new();
    let mut start: usize = 0;
    let mut i: usize = 0;
    proof {
        assert(v@.skip(0) == v@);
        reveal(Seq::filter);
        assert(Seq::<Seq<char>>::empty().filter(keep) =~= Seq::<Seq<char>>::empty());
        assert(out@.map_values(|a: String| a@) + split_aliases(v@.skip(0)).map_values(f).filter(keep)
            =~= parse_aliases(s@));
    }
    while i < n
        invariant
            start <= i <= n == v@.len(),
            v@ == s@,
            f == (|p: Seq<char>| trim_seq(p)),
            keep == (|p: Seq<char>| p.len() > 0),
            piece@ == v@.subrange(start as int, i as int),
            forall|m: int| start <= m < i ==> !is_alias_sep(#[trigger] v@[m]),
            out@.map_values(|a: String| a@) + split_aliases(v@.skip(start as int)).map_values(f).filter(keep)
                == parse_aliases(s@),
        decreases n - i,
    {
        let c = v[i];
        if c == '、' || c == ',' || c == '，' {
            let ghost rest = v@.skip(start as int);
            let ghost before = out@.map_values(|a: String| a@);
            proof {
                lemma_first_sep(rest, 0, i - start);
                assert(rest.take(i - start) == piece@);
                assert(rest.skip(i - start + 1) == v@.skip(i + 1));
                assert(split_aliases(rest) == seq![piece@] + split_aliases(v@.skip(i + 1)));
                assert((seq![piece@] + split_aliases(v@.skip(i + 1))).map_values(f) =~= seq![trim_seq(piece@)]
                    + split_aliases(v@.skip(i + 1)).map_values(f));
                Seq::filter_distributes_over_add(
                    seq![trim_seq(piece@)],
                    split_aliases(v@.skip(i + 1)).map_values(f),
                    keep,
                );
                reveal(Seq::filter);
                assert(seq![trim_seq(piece@)].drop_last() =~= Seq::<Seq<char>>::empty());
            }
            push_alias(&mut out, &piece);
            proof {
                reveal(Seq::filter);
                assert(seq![trim_seq(piece@)].drop_last() =~= Seq::<Seq<char>>::empty());
                let tail = split_aliases(v@.skip(i + 1)).map_values(f).filter(keep);
                if trim_seq(piece@).len() > 0 {
                    assert(seq![trim_seq(piece@)].filter(keep) =~= seq![trim_seq(piece@)]);
                    assert(before.push(trim_seq(piece@)) + tail =~= before + (seq![trim_seq(piece@)] + tail));
                } else {
                    assert(Seq::<Seq<char>>::empty().filter(keep) =~= Seq::<Seq<char>>::empty());
                    assert(!keep(trim_seq(piece@)));
                    assert(seq![trim_seq(piece@)].last() == trim_seq(piece@));
                    assert(seq![trim_seq(piece@)].filter(keep) =~= Seq::<Seq<char>>::empty());
                    assert(before + tail =~= before + (Seq::<Seq<char>>::empty() + tail));
                }
            }
            piece = Vec::new();
            start = i + 1;
            proof {
                assert(piece@ =~= v@.subrange(start as int, (i + 1) as int));
            }
        } else {
            piece.push(c);
            proof {
                assert(v@.subrange(start as int, i + 1) == v@.subrange(start as int, i as int).push(c));
            }
        }
        i = i + 1;
    }
    let ghost rest = v@.skip(start as int);
    let ghost before = out@.map_values(|a: String| a@);
    proof {
        lemma_first_sep(rest, 0, rest.len() as int);
        assert(piece@ == rest);
        assert(split_aliases(rest) == seq![rest]);
        assert(seq![rest].map_values(f) =~= seq![trim_seq(rest)]);
        reveal(Seq::filter);
        assert(seq![trim_seq(rest)].drop_last() =~= Seq::<Seq<char>>::empty());
    }
    push_alias(&mut out, &piece);
    proof {
        reveal(Seq::filter);
        assert(seq![trim_seq(rest)].drop_last() =~= Seq::<Seq<char>>::empty());
        if trim_seq(rest).len() > 0 {
            assert(seq![trim_seq(rest)].filter(keep) =~= seq![trim_seq(rest)]);
            assert(before + seq![trim_seq(rest)] =~= before.push(trim_seq(rest)));
        } else {
            assert(Seq::<Seq<char>>::empty().filter(keep) =~= Seq::<Seq<char>>::empty());
            assert(!keep(trim_seq(rest)));
            assert(seq![trim_seq(rest)].last() == trim_seq(rest));
            assert(seq![trim_seq(rest)].filter(keep) =~= Seq::<Seq<char>>::empty());
            assert(before + Seq::<Seq<char>>::empty() =~= before);
        }
    }
    out
}

/// Joins strings with a separator.
pub(crate) fn join_aliases(v: &Vec<String>, sep: &str) -> (r: String)
    ensures
        r@ == join_seq(v@.map_values(|a: String| a@), sep@),
{
    let ghost pv = v@.map_values(|a: String| a@);
    let mut s = String::new();
    let mut i: usize = 0;
    proof {
        assert(pv.take(0) =~= Seq::<Seq<char>>::empty());
    }
    while i < v.len()
        invariant
            i <= v@.len(),
            pv == v@.map_values(|a: String| a@),
            s@ == join_seq(pv.take(i as int), sep@),
        decreases v@.len() - i,
    {
        proof {
            assert(pv.take(i + 1).drop_last() == pv.take(i as int));
            assert(pv.take(i + 1).last() == v@[i as int]@);
        }
        if i > 0 {
            push_str(&mut s, sep);
        } else {
            proof {
                assert(pv.take(1)[0] == v@[0]@);
            }
        }
        push_str(&mut s, v[i].as_str());
        i = i + 1;
    }
    proof {
        assert(pv.take(v@.len() as int) == pv);
    }
    s
}

fn field(key: FieldKey, value: String) -> (r: FormField)
    ensures
        r.key == key,
        r.value@ == value@,
{
    FormField { key, value }
}

impl CharacterForm {
    pub closed spec fn wf(&self) -> bool {
        &&& self.fields@.len() == 11
        &&& self.focus < self.fields@.len()
    }

    pub fn new(c: Character) -> (r: Self)
        ensures
            r.wf(),
            r@.id == c.id.0@,
            r@.fields == spec_form_fields(c),
            r@.focus == 0,
            !r@.editing,
            !r@.dirty,
            r@.relations == relations_view(c.relations@),
            r@.first_appearance == opt_chapter(c.first_appearance),
            r@.custom == custom_view(c.custom@),
    {
        let ghost cv = c;
        let aliases = join_aliases(&c.aliases, "、");
        let mut fields: Vec<FormField> = Vec::new();
        fields.push(field(FieldKey::Name, c.name));
        fields.push(field(FieldKey::Aliases, aliases));
        fields.push(field(FieldKey::Role, c.role));
        fields.push(field(FieldKey::Gender, c.gender));
        fields.push(field(FieldKey::Age, c.age));
        fields.push(field(FieldKey::Background, c.background));
        fields.push(field(FieldKey::Personality, c.personality));
        fields.push(field(FieldKey::Appearance, c.appearance));
        fields.push(field(FieldKey::Habits, c.habits));
        fields.push(field(FieldKey::Speech, c.speech));
        fields.push(field(FieldKey::Notes, c.notes));
        let r = CharacterForm {
            id: c.id,
            fields,
            focus: 0,
            editing: false,
            dirty: false,
            relations: c.relations,
            first_appearance: c.first_appearance,
            custom: c.custom,
        };
        proof {
            assert(r@.fields =~= spec_form_fields(cv));
        }
        r
    }

    pub fn id(&self) -> (r: CharacterId)
        ensures
            r.0@ == self@.id,
    {
        self.id.clone()
    }

    pub fn fields(&self) -> (r: &[FormField])
        ensures
            fields_view(r@) == self@.fields,
    {
        self.fields.as_slice()
    }

    pub fn focus(&self) -> (r: usize)
        ensures
            r == self@.focus,
    {
        self.focus
    }

    pub fn is_editing(&self) -> (r: bool)
        ensures
            r == self@.editing,
    {
        self.editing
    }

    pub fn is_dirty(&self) -> (r: bool)
        ensures
            r == self@.dirty,
    {
        self.dirty
    }

    pub fn focused_field(&self) -> (r: &FormField)
        requires
            self.wf(),
        ensures
            (r.key, r.value@) == self@.fields[self@.focus as int],
    {
        &self.fields[self.focus]
    }

    pub fn next_field(&mut self)
        requires
            old(self).wf(),
        ensures
            final(self).wf(),
            final(self)@ == (CharacterFormView {
                focus: if old(self)@.focus + 1 < old(self)@.fields.len() { old(self)@.focus + 1 } else { old(self)@.focus },
                ..old(self)@
            }),
    {
        if self.focus + 1 < self.fields.len() {
            self.focus = self.focus + 1;
        }
    }

    pub fn prev_field(&mut self)
        requires
            old(self).wf(),
        ensures
            final(self).wf(),
            final(self)@ == (CharacterFormView {
                focus: if old(self)@.focus >= 1 { (old(self)@.focus - 1) as nat } else { 0 },
                ..old(self)@
            }),
    {
        self.focus = if self.focus >= 1 { self.focus - 1 } else { 0 };
    }

    pub fn start_editing(&mut self)
        requires
            old(self).wf(),
        ensures
            final(self).wf(),
            final(self)@ == (CharacterFormView { editing: true, ..old(self)@ }),
    {
        self.editing = true;
    }

    pub fn stop_editing(&mut self)
        requires
            old(self).wf(),
        ensures
            final(self).wf(),
            final(self)@ == (CharacterFormView { editing: false, ..old(self)@ }),
    {
        self.editing = false;
    }

    /// Sets the focused field's value.
    fn set_focused(&mut self, value: String)
        requires
            old(self).wf(),
        ensures
            final(self).wf(),
            final(self)@ == (CharacterFormView {
                fields: old(self)@.fields.update(
                    old(self)@.focus as int,
                    (old(self)@.fields[old(self)@.focus as int].0, value@),
                ),
                ..old(self)@
            }),
    {
        let key = self.fields[self.focus].key;
        let ghost v = value@;
        self.fields.set(self.focus, FormField { key, value });
        proof {
            assert(fields_view(self.fields@) =~= old(self)@.fields.update(old(self)@.focus as int, (key, v)));
        }
    }

    /// Types a character at the end of the focused field.
    pub fn input_char(&mut self, c: char)
        requires
            old(self).wf(),
        ensures
            final(self).wf(),
            final(self)@ == (CharacterFormView {
                fields: old(self)@.fields.update(
                    old(self)@.focus as int,
                    (old(self)@.fields[old(self)@.focus as int].0, old(self)@.fields[old(self)@.focus as int].1.push(c)),
                ),
                dirty: true,
                ..old(self)@
            }),
    {
        let mut v = to_owned_string(self.fields[self.focus].value.as_str());
        push_char(&mut v, c);
        self.set_focused(v);
        self.dirty = true;
    }

    /// A line break, in multi-line fields only.
    pub fn input_newline(&mut self)
        requires
            old(self).wf(),
        ensures
            final(self).wf(),
            !spec_is_multiline(old(self)@.fields[old(self)@.focus as int].0) ==> final(self)@ == old(self)@,
            spec_is_multiline(old(self)@.fields[old(self)@.focus as int].0) ==> final(self)@ == (CharacterFormView {
                fields: old(self)@.fields.update(
                    old(self)@.focus as int,
                    (old(self)@.fields[old(self)@.focus as int].0, old(self)@.fields[old(self)@.focus as int].1.push('\n')),
                ),
                dirty: true,
                ..old(self)@
            }),
    {
        if self.fields[self.focus].key.is_multiline() {
            let mut v = to_owned_string(self.fields[self.focus].value.as_str());
            push_char(&mut v, '\n');
            self.set_focused(v);
            self.dirty = true;
        }
    }

    /// Backspace: removes the last grapheme cluster of the focused field.
    pub fn backspace(&mut self)
        requires
            old(self).wf(),
        ensures
            final(self).wf(),
            ({
                let value = old(self)@.fields[old(self)@.focus as int].1;
                let gs = graphemes_of(value);
                &&& gs.len() == 0 ==> final(self)@ == old(self)@
                &&& gs.len() > 0 ==> final(self)@ == (CharacterFormView {
                    fields: old(self)@.fields.update(
                        old(self)@.focus as int,
                        (old(self)@.fields[old(self)@.focus as int].0, concat_all(gs.drop_last())),
                    ),
                    dirty: true,
                    ..old(self)@
                })
            }),
    {
        let gs = graphemes(self.fields[self.focus].value.as_str());
        let ghost gsv = gs@.map_values(|g: String| g@);
        if gs.len() == 0 {
            return;
        }
        let mut v = String::new();
        let mut i: usize = 0;
        let n = gs.len() - 1;
        proof {
            assert(gsv.take(0) =~= Seq::<Seq<char>>::empty());
        }
        while i < n
            invariant
                i <= n < gs@.len(),
                gsv == gs@.map_values(|g: String| g@),
                v@ == concat_all(gsv.take(i as int)),
            decreases n - i,
        {
            push_str(&mut v, gs[i].as_str());
            proof {
                assert(gsv.take(i + 1).drop_last() == gsv.take(i as int));
                assert(gsv.take(i + 1).last() == gs@[i as int]@);
            }
            i = i + 1;
        }
        proof {
            assert(gsv.take(n as int) == gsv.drop_last());
        }
        self.set_focused(v);
        self.dirty = true;
    }

    /// The card as edited: single-line values trimmed, aliases split.
    pub fn to_character(&self) -> (r: Character)
        requires
            self.wf(),
        ensures
            r.id.0@ == self@.id,
            r.name@ == trim_seq(field_value(self@.fields, FieldKey::Name)),
            r.aliases@.map_values(|a: String| a@) == parse_aliases(field_value(self@.fields, FieldKey::Aliases)),
            r.role@ == trim_seq(field_value(self@.fields, FieldKey::Role)),
            r.gender@ == trim_seq(field_value(self@.fields, FieldKey::Gender)),
            r.age@ == trim_seq(field_value(self@.fields, FieldKey::Age)),
            r.background@ == field_value(self@.fields, FieldKey::Background),
            r.personality@ == field_value(self@.fields, FieldKey::Personality),
            r.appearance@ == field_value(self@.fields, FieldKey::Appearance),
            r.habits@ == field_value(self@.fields, FieldKey::Habits),
            r.speech@ == field_value(self@.fields, FieldKey::Speech),
            r.notes@ == field_value(self@.fields, FieldKey::Notes),
            relations_view(r.relations@) == self@.relations,
            opt_chapter(r.first_appearance) == self@.first_appearance,
            custom_view(r.custom@) == self@.custom,
    {
        let first = match &self.first_appearance {
            Some(ch) => Some(ch.clone()),
            None => None,
        };
        let mut c = Character {
            id: self.id.clone(),
            name: String::new(),
            aliases: Vec::new(),
            role: String::new(),
            gender: String::new(),
            age: String::new(),
            background: String::new(),
            personality: String::new(),
            appearance: String::new(),
            habits: String::new(),
            speech: String::new(),
            notes: String::new(),
            relations: copy_relations(&self.relations),
            first_appearance: first,
            custom: copy_custom(&self.custom),
        };
        let ghost fv = self@.fields;
        proof {
            assert(fv.take(0) =~= Seq::<(FieldKey, Seq<char>)>::empty());
            assert(c.aliases@.map_values(|a: String| a@) =~= Seq::<Seq<char>>::empty());
            crate::text::lemma_trim_len(Seq::<char>::empty());
            assert(trim_seq(Seq::<char>::empty()) =~= Seq::<char>::empty());
            assert(parse_aliases(Seq::<char>::empty()) =~= Seq::<Seq<char>>::empty()) by {
                reveal(Seq::filter);
                lemma_first_sep(Seq::<char>::empty(), 0, 0);
                assert(split_aliases(Seq::<char>::empty()) == seq![Seq::<char>::empty()]);
                let m = seq![Seq::<char>::empty()].map_values(|p: Seq<char>| trim_seq(p));
                assert(m =~= seq![Seq::<char>::empty()]);
                assert(m.drop_last() =~= Seq::<Seq<char>>::empty());
                assert(Seq::<Seq<char>>::empty().filter(|p: Seq<char>| p.len() > 0) =~= Seq::<Seq<char>>::empty());
            }
        }
        let mut i: usize = 0;
        while i < self.fields.len()
            invariant
                self.wf(),
                i <= self.fields@.len(),
                fv == self@.fields,
                c.id.0@ == self@.id,
                c.name@ == trim_seq(field_value(fv.take(i as int), FieldKey::Name)),
                c.aliases@.map_values(|a: String| a@) == parse_aliases(field_value(fv.take(i as int), FieldKey::Aliases)),
                c.role@ == trim_seq(field_value(fv.take(i as int), FieldKey::Role)),
                c.gender@ == trim_seq(field_value(fv.take(i as int), FieldKey::Gender)),
                c.age@ == trim_seq(field_value(fv.take(i as int), FieldKey::Age)),
                c.background@ == field_value(fv.take(i as int), FieldKey::Background),
                c.personality@ == field_value(fv.take(i as int), FieldKey::Personality),
                c.appearance@ == field_value(fv.take(i as int), FieldKey::Appearance),
                c.habits@ == field_value(fv.take(i as int), FieldKey::Habits),
                c.speech@ == field_value(fv.take(i as int), FieldKey::Speech),
                c.notes@ == field_value(fv.take(i as int), FieldKey::Notes),
                relations_view(c.relations@) == self@.relations,
                opt_chapter(c.first_appearance) == self@.first_appearance,
                custom_view(c.custom@) == self@.custom,
            decreases self.fields@.len() - i,
        {
            let f = &self.fields[i];
            proof {
                assert(fv[i as int] == (f.key, f.value@));
                assert(fv.take(i + 1).drop_last() == fv.take(i as int));
                assert(fv.take(i + 1).last() == fv[i as int]);
            }
            let v = crate::text::chars_of(f.value.as_str());
            match f.key {
                FieldKey::Name => c.name = string_from_chars(&trim_chars(&v)),
                FieldKey::Aliases => c.aliases = split_alias_text(f.value.as_str()),
                FieldKey::Role => c.role = string_from_chars(&trim_chars(&v)),
                FieldKey::Gender => c.gender = string_from_chars(&trim_chars(&v)),
                FieldKey::Age => c.age = string_from_chars(&trim_chars(&v)),
                FieldKey::Background => c.background = to_owned_string(f.value.as_str()),
                FieldKey::Personality => c.personality = to_owned_string(f.value.as_str()),
                FieldKey::Appearance => c.appearance = to_owned_string(f.value.as_str()),
                FieldKey::Habits => c.habits = to_owned_string(f.value.as_str()),
                FieldKey::Speech => c.speech = to_owned_string(f.value.as_str()),
                FieldKey::Notes => c.notes = to_owned_string(f.value.as_str()),
            }
            i = i + 1;
        }
        proof {
            assert(fv.take(self.fields@.len() as int) == fv);
        }
        c
    }

    /// After a save.
    pub fn mark_saved(&mut self)
        requires
            old(self).wf(),
        ensures
            final(self).wf(),
            final(self)@ == (CharacterFormView { dirty: false, ..old(self)@ }),
    {
        self.dirty = false;
    }
}


/// What the caller is asked to do after a key in the card form.
#[derive(Debug, Clone, Copy, PartialEq, Eq, Structural)]
pub enum FormAction {
    Nothing,
    /// Ctrl+S: save the card.
    Save,
    /// Esc or `q` outside a field: close the form; `discarded` says unsaved
    /// changes were dropped (the writer is told so).
    Close { discarded: bool },
}

/// The form with `value` as the focused field's value, marked changed.
pub open spec fn with_focused(v: CharacterFormView, value: Seq<char>) -> CharacterFormView {
    CharacterFormView {
        fields: v.fields.update(v.focus as int, (v.fields[v.focus as int].0, value)),
        dirty: true,
        ..v
    }
}

/// The form after a key: while a field is edited, Esc ends the editing,
/// Enter breaks the line in a multi-line field and ends the editing in
/// another, Backspace takes the last cluster off and characters (without
/// Ctrl) are typed; otherwise Tab, Down or `j` and Up or `k` move between
/// fields and Enter or `i` starts editing.
pub open spec fn form_step(v: CharacterFormView, code: KeyCode, mods: KeyModifiers) -> CharacterFormView {
    let value = v.fields[v.focus as int].1;
    if code == KeyCode::Char('s') && mods.control {
        v
    } else if v.editing {
        if code == KeyCode::Esc {
            CharacterFormView { editing: false, ..v }
        } else if code == KeyCode::Enter {
            if spec_is_multiline(v.fields[v.focus as int].0) {
                with_focused(v, value.push('\n'))
            } else {
                CharacterFormView { editing: false, ..v }
            }
        } else if code == KeyCode::Backspace {
            let gs = crate::editor::textspec::graphemes_of(value);
            if gs.len() == 0 {
                v
            } else {
                with_focused(v, crate::editor::textspec::concat_all(gs.drop_last()))
            }
        } else {
            match code {
                KeyCode::Char(c) => if !mods.control { with_focused(v, value.push(c)) } else { v },
                _ => v,
            }
        }
    } else if code == KeyCode::Tab || code == KeyCode::Down || code == KeyCode::Char('j') {
        CharacterFormView { focus: if v.focus + 1 < v.fields.len() { v.focus + 1 } else { v.focus }, ..v }
    } else if code == KeyCode::Up || code == KeyCode::Char('k') {
        CharacterFormView { focus: if v.focus >= 1 { (v.focus - 1) as nat } else { 0 }, ..v }
    } else if code == KeyCode::Enter || code == KeyCode::Char('i') {
        CharacterFormView { editing: true, ..v }
    } else {
        v
    }
}

pub open spec fn form_action(v: CharacterFormView, code: KeyCode, mods: KeyModifiers) -> FormAction {
    if code == KeyCode::Char('s') && mods.control {
        FormAction::Save
    } else if !v.editing && (code == KeyCode::Esc || code == KeyCode::Char('q')) {
        FormAction::Close { discarded: v.dirty }
    } else {
        FormAction::Nothing
    }
}

impl CharacterForm {
    /// A key while the card form is on top.
    pub fn on_key(&mut self, code: KeyCode, mods: KeyModifiers) -> (r: FormAction)
        requires
            old(self).wf(),
        ensures
            final(self).wf(),
            final(self)@ == form_step(old(self)@, code, mods),
            r == form_action(old(self)@, code, mods),
    {
        if code == KeyCode::Char('s') && mods.control {
            return FormAction::Save;
        }
        if self.editing {
            if code == KeyCode::Esc {
                self.stop_editing();
            } else if code == KeyCode::Enter {
                if self.fields[self.focus].key.is_multiline() {
                    self.input_newline();
                } else {
                    self.stop_editing();
                }
            } else if code == KeyCode::Backspace {
                self.backspace();
            } else {
                match code {
                    KeyCode::Char(c) => {
                        if !mods.control {
                            self.input_char(c);
                        }
                    },
                    _ => {},
                }
            }
            return FormAction::Nothing;
        }
        if code == KeyCode::Esc || code == KeyCode::Char('q') {
            FormAction::Close { discarded: self.dirty }
        } else {
            if code == KeyCode::Tab || code == KeyCode::Down || code == KeyCode::Char('j') {
                self.next_field();
            } else if code == KeyCode::Up || code == KeyCode::Char('k') {
                self.prev_field();
            } else if code == KeyCode::Enter || code == KeyCode::Char('i') {
                self.start_editing();
            }
            FormAction::Nothing
        }
    }
}

/// What the writer is told when a form with unsaved changes is closed.
pub fn discarded_toast() -> (r: &'static str)
    ensures
        r@ == "已放弃未保存的改动"@,
{
    "已放弃未保存的改动"
}

} // verus!
