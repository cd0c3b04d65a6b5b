//! What the scraper hands on: vendors with their tasks, and the data file.

use crate::data;
use crate::ids;
use crate::sorting;
use crate::text;
use crate::data::{Item, ReqView, Requirement};
use crate::sorting::Ranked;
use crate::text::text_before;
use vstd::prelude::*;

verus! {

pub type TaskId = String;

pub type VendorId = String;

/// A task of a vendor, with what has to be handed in.
#[derive(Debug)]
pub struct Task {
    pub id: TaskId,
    pub name: String,
    pub vendor_id: VendorId,
    pub prerequisites: Vec<TaskId>,
    pub requirements: Vec<Requirement>,
    pub source_url: String,
}

/// What a [`Task`] says.
#[verifier::ext_equal]
pub struct TaskView {
    pub id: Seq<char>,
    pub name: Seq<char>,
    pub vendor_id: Seq<char>,
    pub prerequisites: Seq<Seq<char>>,
    pub requirements: Seq<ReqView>,
    pub source_url: Seq<char>,
}

impl View for Task {
    type V = TaskView;

    open spec fn view(&self) -> TaskView {
        TaskView {
            id: self.id@,
            name: self.name@,
            vendor_id: self.vendor_id@,
            prerequisites: ids::texts(self.prerequisites@),
            requirements: data::reqs_view(self.requirements@),
            source_url: self.source_url@,
        }
    }
}

/// Tasks come in the order of their ids.
impl Ranked for Task {
    open spec fn precedes(a: TaskView, b: TaskView) -> bool {
        text::text_lt(a.id, b.id)
    }

    proof fn precedes_irreflexive(a: TaskView) {
        text::lemma_text_lt_irreflexive(a.id);
    }

    proof fn precedes_asymmetric(a: TaskView, b: TaskView) {
        text::lemma_text_order(a.id, b.id, b.id);
    }

    proof fn precedes_negatively_transitive(a: TaskView, b: TaskView, c: TaskView) {
        text::lemma_text_order(a.id, b.id, c.id);
    }

    fn is_before(&self, other: &Self) -> (r: bool) {
        text_before(self.id.as_str(), other.id.as_str())
    }
}

/// A vendor and its tasks.
#[derive(Debug)]
pub struct Vendor {
    pub id: VendorId,
    pub name: String,
    pub tasks: Vec<Task>,
}

/// What a [`Vendor`] says.
#[verifier::ext_equal]
pub struct VendorView {
    pub id: Seq<char>,
    pub name: Seq<char>,
    pub tasks: Seq<TaskView>,
}

impl View for Vendor {
    type V = VendorView;

    open spec fn view(&self) -> VendorView {
        VendorView { id: self.id@, name: self.name@, tasks: sorting::views(self.tasks@) }
    }
}

/// The data file. The modules are carried over as they are, as JSON text.
#[derive(Debug)]
pub struct ScrapedData {
    pub data_version: String,
    pub scraped_at: String,
    pub source_repo: String,
    pub source_commit: String,
    pub modules: String,
    pub vendors: Vec<Vendor>,
    pub items: Vec<Item>,
}

} // verus!
