//! The erased face of a node builder.

use vstd::prelude::*;

use crate::engine_message::Ty;
use crate::node::NodeBuilderKind;

verus! {

/// What the engine needs to know of any builder: the tag of the manager
/// kind that will materialize it.
pub trait AbstractElementBuilder {
    /// The tag of the node kind this builder belongs to.
    fn node_id(&self) -> Ty;
}

impl AbstractElementBuilder for NodeBuilderKind {
    /// The tag of the builder's kind.
    fn node_id(&self) -> (t: Ty)
        ensures
            t == Ty::spec_of(self.spec_kind()),
    {
        Ty::of(self.kind())
    }
}

} // verus!
