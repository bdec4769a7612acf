//! The values that the commands speak of: the session state and the notes.

use vstd::prelude::*;
use vstd::string::*;

verus! {

/// What a session carries from one call of a chain to the next.
#[derive(Debug)]
pub struct FunkState {
    pub title: String,
}

impl FunkState {
    /// The state at the start of a session; its title is `New`.
    pub fn new() -> (state: Self)
        ensures
            state.title@ == "New"@,
    {
        Self { title: "New".to_owned() }
    }
}

impl Clone for FunkState {
    fn clone(&self) -> (copy: Self)
        ensures
            copy.title@ == self.title@,
    {
        Self { title: self.title.clone() }
    }
}

/// A project, known by its name.
#[derive(Debug)]
pub struct Project {
    pub name: String,
}

impl Project {
    /// The project called `name`.
    pub fn new(name: &str) -> (project: Self)
        ensures
            project.name@ == name@,
    {
        Self { name: name.to_owned() }
    }
}

/// A dated step of a note.
#[derive(Debug, PartialEq)]
pub struct Milestone {
    id: usize,
    title: String,
    description: String,
    date: u64,
    completed: bool,
    completed_on: Option<u64>,
}

/// A note with its milestones.
#[derive(Debug)]
pub struct Funknote {
    pub id: usize,
    pub title: String,
    pub description: String,
    pub created_on: u64,
    pub milestone: Vec<Milestone>,
    pub active: bool,
}

impl Funknote {
    /// A fresh note: active, without milestones. The caller supplies the
    /// identifier and the time of creation.
    pub fn new(id: usize, title: &str, description: &str, created_on: u64) -> (note: Funknote)
        ensures
            note.id == id,
            note.title@ == title@,
            note.description@ == description@,
            note.created_on == created_on,
            note.milestone@.len() == 0,
            note.active,
    {
        Funknote {
            id,
            active: true,
            title: title.to_owned(),
            created_on,
            milestone: Vec::new(),
            description: description.to_owned(),
        }
    }
}

/// An object of a project.
#[derive(Debug)]
pub struct Object {
    pub id: usize,
    pub title: String,
    pub description: String,
    pub created_on: u64,
}

/// An item of an object.
#[derive(Debug)]
pub struct Item {
    pub id: usize,
    pub text: String,
    pub created_on: u64,
}

/// What a user may ask of the note store.
#[derive(Debug)]
pub enum Command {
    New { title: String, description: String },
    AddMilestone { note_id: usize, description: String },
    DeleteNote { note_id: usize },
    ListNotes,
}

} // verus!
