//! The presentation projection: a pure, order-preserving transform from
//! entities to their externally visible representations for an operator.

use vstd::prelude::*;

verus! {

use crate::text::bytes_of;
use crate::user::{Model, ModelView, Role, views_of};

/// The externally visible representation of one user.
#[derive(Debug, PartialEq, Eq)]
pub struct Presentation {
    pub id: u128,
    pub name: String,
    pub role: Role,
}

/// The mathematical value of a presentation.
pub ghost struct PresentationView {
    pub id: u128,
    pub name: Seq<u8>,
    pub role: Role,
}

impl View for Presentation {
    type V = PresentationView;

    open spec fn view(&self) -> PresentationView {
        PresentationView { id: self.id, name: bytes_of(self.name@), role: self.role }
    }
}

/// The projection of one row.
pub open spec fn pres_of(m: ModelView) -> PresentationView {
    PresentationView { id: m.id, name: m.name, role: m.role }
}

impl Presentation {
    /// Projects a batch of rows for an operator: one presentation per
    /// row, in the same order. The default user projection suppresses
    /// nothing, whoever asks.
    pub fn from(_operator: Option<&Model>, models: &Vec<Model>) -> (r: Vec<Presentation>)
        ensures
            r@.len() == models@.len(),
            forall|i: int| 0 <= i < models@.len() ==> (#[trigger] r@[i])@ == pres_of(
                views_of(models@)[i],
            ),
    {
        let mut out: Vec<Presentation> = Vec::new();
        let mut i: usize = 0;
        while i < models.len()
            invariant
                i <= models@.len(),
                out@.len() == i,
                forall|j: int| 0 <= j < i ==> (#[trigger] out@[j])@ == pres_of(
                    views_of(models@)[j],
                ),
            decreases models@.len() - i,
        {
            out.push(Presentation {
                id: models[i].id,
                name: models[i].name.clone(),
                role: models[i].role,
            });
            i = i + 1;
        }
        out
    }
}

} // verus!
