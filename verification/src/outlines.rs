//! What each kind of object contributes to the outline: its title and the properties that
//! are listed under it, in order.
use vstd::prelude::*;
use crate::export::OutlineProperty;
use crate::metadata::{CharacterMetadata, PlaceMetadata, FolderMetadata, SceneMetadata};
use crate::reference::{ObjectEntry, reference_text};
use crate::schema::{FileTypeInfo};

verus! {

/// The names and values of outline properties.
pub open spec fn property_pairs(ps: Seq<OutlineProperty>) -> Seq<(Seq<char>, Seq<char>)> {
    ps.map_values(|p: OutlineProperty| (p.name@, p.value@))
}

fn property(name: &str, value: &str) -> (r: OutlineProperty)
    ensures
        r.name@ == name@,
        r.value@ == value@,
{
    OutlineProperty { name: name.to_owned(), value: value.to_owned() }
}

/// The title of an object: its name, or the default name of its type when it has none.
pub open spec fn title_of(name: Seq<char>, empty_string_name: Seq<char>) -> Seq<char> {
    if name.len() == 0 { empty_string_name } else { name }
}

/// The title of an object named `name` of type `file_type`.
pub fn get_title(name: &str, file_type: &FileTypeInfo) -> (r: String)
    ensures
        r@ == title_of(name@, file_type@.empty_string_name),
{
    if name.is_empty() {
        file_type.empty_string_name().to_owned()
    } else {
        name.to_owned()
    }
}

impl CharacterMetadata {
    /// The properties of a character in the outline.
    pub fn outline_properties(&self) -> (r: Vec<OutlineProperty>)
        ensures
            property_pairs(r@) == seq![("summary"@, self.summary.content()), ("appearance"@, self.appearance.content()),
                ("personality"@, self.personality.content()), ("goal"@, self.goal.content()),
                ("conflict"@, self.conflict.content()), ("habits"@, self.habits.content()),
                ("notes"@, self.notes.content())],
    {
        let r = vec![
            property("summary", self.summary.as_str()),
            property("appearance", self.appearance.as_str()),
            property("personality", self.personality.as_str()),
            property("goal", self.goal.as_str()),
            property("conflict", self.conflict.as_str()),
            property("habits", self.habits.as_str()),
            property("notes", self.notes.as_str()),
        ];
        assert(property_pairs(r@) =~= seq![("summary"@, self.summary.content()), ("appearance"@, self.appearance.content()),
                ("personality"@, self.personality.content()), ("goal"@, self.goal.content()),
                ("conflict"@, self.conflict.content()), ("habits"@, self.habits.content()),
                ("notes"@, self.notes.content())]);
        r
    }
}

impl PlaceMetadata {
    /// The properties of a place in the outline.
    pub fn outline_properties(&self) -> (r: Vec<OutlineProperty>)
        ensures
            property_pairs(r@) == seq![("connection"@, self.connection.content()), ("description"@, self.description.content()),
                ("appearance"@, self.appearance.content()), ("other_senses"@, self.other_senses.content()),
                ("notes"@, self.notes.content())],
    {
        let r = vec![
            property("connection", self.connection.as_str()),
            property("description", self.description.as_str()),
            property("appearance", self.appearance.as_str()),
            property("other_senses", self.other_senses.as_str()),
            property("notes", self.notes.as_str()),
        ];
        assert(property_pairs(r@) =~= seq![("connection"@, self.connection.content()), ("description"@, self.description.content()),
                ("appearance"@, self.appearance.content()), ("other_senses"@, self.other_senses.content()),
                ("notes"@, self.notes.content())]);
        r
    }
}

impl FolderMetadata {
    /// The properties of a folder in the outline.
    pub fn outline_properties(&self) -> (r: Vec<OutlineProperty>)
        ensures
            property_pairs(r@) == seq![("summary"@, self.summary.content()), ("notes"@, self.notes.content())],
    {
        let r = vec![property("summary", self.summary.as_str()), property("notes", self.notes.as_str())];
        assert(property_pairs(r@) =~= seq![("summary"@, self.summary.content()), ("notes"@, self.notes.content())]);
        r
    }
}

impl SceneMetadata {
    /// The properties of a scene in the outline: its summary, its point-of-view reference
    /// (as written in files) and its notes.
    pub fn outline_properties(&self, objects: &Vec<ObjectEntry>) -> (r: Vec<OutlineProperty>)
        ensures
            property_pairs(r@) == seq![("summary"@, self.summary.content()),
                ("pov"@, reference_text(self.pov@, objects@.map_values(|e: ObjectEntry| e@))),
                ("notes"@, self.notes.content())],
    {
        let pov = self.pov.to_string(objects);
        let r = vec![
            property("summary", self.summary.as_str()),
            property("pov", pov.as_str()),
            property("notes", self.notes.as_str()),
        ];
        assert(property_pairs(r@) =~= seq![("summary"@, self.summary.content()),
                ("pov"@, reference_text(self.pov@, objects@.map_values(|e: ObjectEntry| e@))),
                ("notes"@, self.notes.content())]);
        r
    }
}

} // verus!
