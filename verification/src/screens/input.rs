//! The one-line text input overlay (renaming a book, volume or chapter). It only
//! collects the text; what it is for travels with it as an intent.
use vstd::prelude::*;

use crate::model::{BookId, ChapterId, VolumeId};
use crate::text::{pop_char, push_char};

verus! {

broadcast use vstd::string::group_string_axioms;

/// What to do with the text on submit, with the target's id.
#[derive(Debug, PartialEq, Eq)]
pub enum InputIntent {
    RenameBook(BookId),
    RenameVolume(VolumeId),
    RenameChapter(ChapterId),
}

impl Clone for InputIntent {
    fn clone(&self) -> (r: Self)
        ensures
            r == *self,
    {
        match self {
            InputIntent::RenameBook(id) => InputIntent::RenameBook(BookId(id.0.clone())),
            InputIntent::RenameVolume(id) => InputIntent::RenameVolume(VolumeId(id.0.clone())),
            InputIntent::RenameChapter(id) => InputIntent::RenameChapter(ChapterId(id.0.clone())),
        }
    }
}

/// The title of the input overlay for an intent.
pub fn rename_prompt(intent: &InputIntent) -> (r: &'static str)
    ensures
        r == match *intent {
            InputIntent::RenameBook(_) => "重命名书",
            InputIntent::RenameVolume(_) => "重命名卷",
            InputIntent::RenameChapter(_) => "重命名章",
        },
{
    match intent {
        InputIntent::RenameBook(_) => "重命名书",
        InputIntent::RenameVolume(_) => "重命名卷",
        InputIntent::RenameChapter(_) => "重命名章",
    }
}

/// Control characters (general category Cc: U+0000 to U+001F and U+007F to
/// U+009F), as `char::is_control` tells them.
pub open spec fn is_control(c: char) -> bool {
    (c as u32) <= 0x1f || (0x7f <= (c as u32) && (c as u32) <= 0x9f)
}

fn char_is_control(c: char) -> (r: bool)
    ensures
        r == is_control(c),
{
    let v = c as u32;
    v <= 0x1f || (0x7f <= v && v <= 0x9f)
}

pub struct Input {
    /// The overlay's title, such as 「重命名章」.
    title: String,
    /// The text so far; a rename starts from the old name.
    value: String,
    intent: InputIntent,
}

impl Input {
    pub fn new(title: String, initial: String, intent: InputIntent) -> (r: Self)
        ensures
            r.spec_title() == title@,
            r.spec_value() == initial@,
            r.spec_intent() == intent,
    {
        Input { title, value: initial, intent }
    }

    pub closed spec fn spec_title(&self) -> Seq<char> {
        self.title@
    }

    pub closed spec fn spec_value(&self) -> Seq<char> {
        self.value@
    }

    pub closed spec fn spec_intent(&self) -> InputIntent {
        self.intent
    }

    pub fn title(&self) -> (r: &str)
        ensures
            r@ == self.spec_title(),
    {
        self.title.as_str()
    }

    pub fn value(&self) -> (r: &str)
        ensures
            r@ == self.spec_value(),
    {
        self.value.as_str()
    }

    #[verifier::when_used_as_spec(spec_intent)]
    pub fn intent(&self) -> (r: InputIntent)
        ensures
            r == self.spec_intent(),
    {
        self.intent.clone()
    }

    /// Types a character; control characters (tab, form feed and the like)
    /// never get into a name.
    pub fn input_char(&mut self, c: char)
        ensures
            final(self).spec_value() == if is_control(c) { old(self).spec_value() } else { old(self).spec_value().push(c) },
            final(self).spec_title() == old(self).spec_title(),
            final(self).spec_intent() == old(self).spec_intent(),
    {
        if !char_is_control(c) {
            push_char(&mut self.value, c);
        }
    }

    /// Removes the last character.
    pub fn backspace(&mut self)
        ensures
            final(self).spec_value() == if old(self).spec_value().len() > 0 {
                old(self).spec_value().drop_last()
            } else {
                old(self).spec_value()
            },
            final(self).spec_title() == old(self).spec_title(),
            final(self).spec_intent() == old(self).spec_intent(),
    {
        let _ = pop_char(&mut self.value);
    }
}

} // verus!
