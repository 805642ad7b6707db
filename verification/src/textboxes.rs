//! The text boxes of each kind of object, with the names the editor gives them, in the order
//! the editor shows (and searches) them.
use vstd::prelude::*;
use crate::metadata::{CharacterMetadata, PlaceMetadata, NoteMetadata, FolderMetadata, SceneMetadata, ProjectMetadata};
use crate::textbox::Text;

verus! {

/// Text boxes as values: each box with its name.
pub open spec fn named_boxes(v: Seq<(&Text, &str)>) -> Seq<(Text, Seq<char>)> {
    v.map_values(|p: (&Text, &str)| (*p.0, p.1@))
}

impl ProjectMetadata {
    /// The project's text boxes: its summary and its notes.
    pub fn for_each_textbox(&self) -> (r: Vec<(&Text, &'static str)>)
        ensures
            named_boxes(r@) == seq![(self.summary, "summary"@), (self.notes, "notes"@)],
    {
        let r = vec![(&self.summary, "summary"), (&self.notes, "notes")];
        assert(named_boxes(r@) =~= seq![(self.summary, "summary"@), (self.notes, "notes"@)]);
        r
    }
}

impl CharacterMetadata {
    /// A character's text boxes.
    pub fn for_each_textbox(&self) -> (r: Vec<(&Text, &'static str)>)
        ensures
            named_boxes(r@) == seq![(self.summary, "summary"@), (self.notes, "notes"@),
                (self.appearance, "appearance"@), (self.personality, "personality"@),
                (self.goal, "goal"@), (self.conflict, "conflict"@), (self.habits, "habits"@)],
    {
        let r = vec![(&self.summary, "summary"), (&self.notes, "notes"), (&self.appearance, "appearance"),
            (&self.personality, "personality"), (&self.goal, "goal"), (&self.conflict, "conflict"),
            (&self.habits, "habits")];
        assert(named_boxes(r@) =~= seq![(self.summary, "summary"@), (self.notes, "notes"@),
            (self.appearance, "appearance"@), (self.personality, "personality"@),
            (self.goal, "goal"@), (self.conflict, "conflict"@), (self.habits, "habits"@)]);
        r
    }
}

impl PlaceMetadata {
    /// A place's text boxes.
    pub fn for_each_textbox(&self) -> (r: Vec<(&Text, &'static str)>)
        ensures
            named_boxes(r@) == seq![(self.connection, "Connection"@), (self.description, "Description"@),
                (self.appearance, "Appearance"@), (self.other_senses, "Other Senses"@), (self.notes, "notes"@)],
    {
        let r = vec![(&self.connection, "Connection"), (&self.description, "Description"),
            (&self.appearance, "Appearance"), (&self.other_senses, "Other Senses"), (&self.notes, "notes")];
        assert(named_boxes(r@) =~= seq![(self.connection, "Connection"@), (self.description, "Description"@),
            (self.appearance, "Appearance"@), (self.other_senses, "Other Senses"@), (self.notes, "notes"@)]);
        r
    }
}

impl FolderMetadata {
    /// A folder's text boxes.
    pub fn for_each_textbox(&self) -> (r: Vec<(&Text, &'static str)>)
        ensures
            named_boxes(r@) == seq![(self.summary, "Summary"@), (self.notes, "Notes"@)],
    {
        let r = vec![(&self.summary, "Summary"), (&self.notes, "Notes")];
        assert(named_boxes(r@) =~= seq![(self.summary, "Summary"@), (self.notes, "Notes"@)]);
        r
    }
}

impl SceneMetadata {
    /// A scene's text boxes: those of its metadata, then its text `text`.
    pub fn for_each_textbox<'a>(&'a self, text: &'a Text) -> (r: Vec<(&'a Text, &'static str)>)
        ensures
            named_boxes(r@) == seq![(self.summary, "Summary"@), (self.notes, "Notes"@), (*text, "text"@)],
    {
        let r = vec![(&self.summary, "Summary"), (&self.notes, "Notes"), (text, "text")];
        assert(named_boxes(r@) =~= seq![(self.summary, "Summary"@), (self.notes, "Notes"@), (*text, "text"@)]);
        r
    }
}

impl NoteMetadata {
    /// A note's text boxes: those of its metadata, then its text `text`.
    pub fn for_each_textbox<'a>(&'a self, text: &'a Text) -> (r: Vec<(&'a Text, &'static str)>)
        ensures
            named_boxes(r@) == seq![(self.subject, "subject"@), (self.commentary, "commentary"@), (*text, "text"@)],
    {
        let r = vec![(&self.subject, "subject"), (&self.commentary, "commentary"), (text, "text")];
        assert(named_boxes(r@) =~= seq![(self.subject, "subject"@), (self.commentary, "commentary"@), (*text, "text"@)]);
        r
    }
}

impl ProjectMetadata {
    /// The project's text boxes, to be edited in place.
    pub fn for_each_textbox_mut(&mut self) -> (r: Vec<(&mut Text, &'static str)>)
        ensures
            r@.len() == 2,
            *r@[0].0 == old(self).summary,
            r@[0].1@ == "summary"@,
            *r@[1].0 == old(self).notes,
            r@[1].1@ == "notes"@,
            final(self).summary == *final(r@[0].0),
            final(self).notes == *final(r@[1].0),
            final(self).genre == old(self).genre,
            final(self).author == old(self).author,
            final(self).email == old(self).email,
            final(self).export == old(self).export,
    {
        let ProjectMetadata { summary, notes, .. } = self;
        vec![(summary, "summary"), (notes, "notes")]
    }
}

} // verus!
