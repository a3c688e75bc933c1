//! Leaf values of the aggregation engine's data model.
//!
//! The engine treats the body of an operation, a schema or a security scheme
//! as an atomic value: it merges, copies and compares them, but never inspects
//! them beyond what merging requires. Each body is therefore an opaque
//! fingerprint. An operation additionally carries the identifiers of its
//! parameter declarations, which the normalizer canonicalizes.

use vstd::prelude::*;

verus! {

/// An HTTP method, the key of a path item's operation map.
#[derive(Clone, Copy, PartialEq, Eq, Structural, Debug, Hash)]
pub enum Method {
    Get,
    Put,
    Post,
    Delete,
    Options,
    Head,
    Patch,
}

impl View for Method {
    type V = Method;

    open spec fn view(&self) -> Method {
        *self
    }
}

/// A value that can be duplicated without changing its abstract view.
///
/// The snapshot and translation operations hand out copies of stored values;
/// this trait is how they promise that a copy denotes the same abstract value.
pub trait Dup: View + Sized {
    /// Returns a copy of `self` with the same abstract view.
    fn dup(&self) -> (r: Self)
        ensures
            r@ == self@,
    ;
}

/// Metadata describing one HTTP-method handler: an opaque body (responses,
/// descriptions, referenced schema names) plus its parameter declarations,
/// each identified by an opaque fingerprint.
pub struct Operation {
    pub body: u64,
    pub parameters: Vec<u64>,
}

/// The abstract value of an [`Operation`].
#[verifier::ext_equal]
pub struct OperationModel {
    pub body: u64,
    pub parameters: Seq<u64>,
}

impl View for Operation {
    type V = OperationModel;

    open spec fn view(&self) -> OperationModel {
        OperationModel { body: self.body, parameters: self.parameters@ }
    }
}

impl Operation {
    /// Builds an operation from its opaque body and parameter fingerprints.
    pub fn new(body: u64, parameters: Vec<u64>) -> (r: Self)
        ensures
            r@.body == body,
            r@.parameters == parameters@,
    {
        Operation { body, parameters }
    }

    /// The opaque body fingerprint.
    pub fn body(&self) -> (r: u64)
        ensures
            r == self@.body,
    {
        self.body
    }

    /// The parameter declarations, in stored order.
    pub fn parameters(&self) -> (r: &Vec<u64>)
        ensures
            r@ == self@.parameters,
    {
        &self.parameters
    }
}

impl Dup for Operation {
    fn dup(&self) -> (r: Self) {
        let mut params: Vec<u64> = Vec::new();
        let n = self.parameters.len();
        let mut i: usize = 0;
        while i < n
            invariant
                i <= n,
                n == self.parameters.len(),
                params@ == self.parameters@.take(i as int),
            decreases n - i,
        {
            params.push(self.parameters[i]);
            proof {
                assert(params@ =~= self.parameters@.take(i + 1));
            }
            i += 1;
        }
        proof {
            assert(params@ =~= self.parameters@);
        }
        Operation { body: self.body, parameters: params }
    }
}

/// A named schema body, atomic to the engine.
#[derive(Clone, Copy, PartialEq, Eq, Structural, Debug)]
pub struct Schema {
    pub body: u64,
}

impl View for Schema {
    type V = u64;

    open spec fn view(&self) -> u64 {
        self.body
    }
}

impl Schema {
    /// Builds a schema from its opaque body.
    pub fn new(body: u64) -> (r: Self)
        ensures
            r@ == body,
    {
        Schema { body }
    }
}

impl Dup for Schema {
    fn dup(&self) -> (r: Self) {
        Schema { body: self.body }
    }
}

/// A named security-scheme definition, atomic to the engine.
#[derive(Clone, Copy, PartialEq, Eq, Structural, Debug)]
pub struct SecurityScheme {
    pub body: u64,
}

impl View for SecurityScheme {
    type V = u64;

    open spec fn view(&self) -> u64 {
        self.body
    }
}

impl SecurityScheme {
    /// Builds a security scheme from its opaque body.
    pub fn new(body: u64) -> (r: Self)
        ensures
            r@ == body,
    {
        SecurityScheme { body }
    }
}

impl Dup for SecurityScheme {
    fn dup(&self) -> (r: Self) {
        SecurityScheme { body: self.body }
    }
}

} // verus!
