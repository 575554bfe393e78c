//! Operators on documents: `&` concatenates, `+` joins with a space, `/`
//! joins with a line break, and `*` joins with a space or, where that does
//! not fit, with a line break.

use crate::layout::{line_join, soft_join, space_join, Layout};
use crate::{cat, text, union, Document};
use vstd::prelude::*;
use vstd::std_specs::ops::{AddSpecImpl, BitAndSpecImpl, DivSpecImpl, MulSpecImpl};

verus! {

impl core::ops::BitAnd<Document> for Document {
    type Output = Document;

    fn bitand(self, rhs: Document) -> (d: Document)
        ensures
            d@ == Layout::Cat(Box::new(self@), Box::new(rhs@)),
    {
        cat(self, rhs)
    }
}

impl BitAndSpecImpl<Document> for Document {
    open spec fn obeys_bitand_spec() -> bool {
        false
    }

    open spec fn bitand_req(self, rhs: Document) -> bool {
        true
    }

    open spec fn bitand_spec(self, rhs: Document) -> Document {
        self
    }
}

impl core::ops::Add<Document> for Document {
    type Output = Document;

    fn add(self, rhs: Document) -> (d: Document)
        ensures
            d@ == space_join(self@, rhs@),
    {
        proof {
            reveal_strlit(" ");
            assert(" "@ =~= seq![' ']);
        }
        cat(self, cat(text(" "), rhs))
    }
}

impl AddSpecImpl<Document> for Document {
    open spec fn obeys_add_spec() -> bool {
        false
    }

    open spec fn add_req(self, rhs: Document) -> bool {
        true
    }

    open spec fn add_spec(self, rhs: Document) -> Document {
        self
    }
}

impl core::ops::Div<Document> for Document {
    type Output = Document;

    fn div(self, rhs: Document) -> (d: Document)
        ensures
            d@ == line_join(self@, rhs@),
    {
        cat(self, cat(crate::line(), rhs))
    }
}

impl DivSpecImpl<Document> for Document {
    open spec fn obeys_div_spec() -> bool {
        false
    }

    open spec fn div_req(self, rhs: Document) -> bool {
        true
    }

    open spec fn div_spec(self, rhs: Document) -> Document {
        self
    }
}

impl core::ops::Mul<Document> for Document {
    type Output = Document;

    fn mul(self, rhs: Document) -> (d: Document)
        ensures
            d@ == soft_join(self@, rhs@),
    {
        proof {
            reveal_strlit(" ");
            assert(" "@ =~= seq![' ']);
        }
        cat(self, cat(union(text(" "), crate::line()), rhs))
    }
}

impl MulSpecImpl<Document> for Document {
    open spec fn obeys_mul_spec() -> bool {
        false
    }

    open spec fn mul_req(self, rhs: Document) -> bool {
        true
    }

    open spec fn mul_spec(self, rhs: Document) -> Document {
        self
    }
}

} // verus!
