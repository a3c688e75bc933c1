//! The version translator: deriving the next-schema-version document from a
//! document snapshot.
//!
//! The translation is a structural remapping computed on demand as a pure
//! function of the snapshot: paths carry over, schema definitions and
//! security-scheme definitions move under the components of the target
//! version, and the base path becomes the server URL. The source document is
//! not disturbed, and translating the same snapshot twice yields structurally
//! identical results, which `lemma_translate_pure` states.

use vstd::prelude::*;

use crate::document::{Document, DocumentModel};
use crate::model::{Schema, SecurityScheme};
use crate::path_item::{PathItem, PathItemModel};
use crate::str_map::StrMap;

verus! {

/// The abstract value of a [`DocumentV3`].
#[verifier::ext_equal]
pub struct DocumentV3Model {
    pub paths: Map<Seq<char>, PathItemModel>,
    pub schemas: Map<Seq<char>, u64>,
    pub security_schemes: Map<Seq<char>, u64>,
    pub server_url: Option<Seq<char>>,
}

/// The document in the target schema version: paths beside components
/// (schemas and security schemes), with the base path recast as a server URL.
pub struct DocumentV3 {
    pub paths: StrMap<PathItem>,
    pub schemas: StrMap<Schema>,
    pub security_schemes: StrMap<SecurityScheme>,
    pub server_url: Option<String>,
}

impl View for DocumentV3 {
    type V = DocumentV3Model;

    open spec fn view(&self) -> DocumentV3Model {
        DocumentV3Model {
            paths: self.paths@,
            schemas: self.schemas@,
            security_schemes: self.security_schemes@,
            server_url: match self.server_url {
                Some(u) => Some(u@),
                None => None,
            },
        }
    }
}

/// The target-version document derived from a source-version snapshot: paths
/// carry over, definitions become component schemas, security definitions
/// become component security schemes, and the base path becomes the server URL.
pub open spec fn translate_model(d: DocumentModel) -> DocumentV3Model {
    DocumentV3Model {
        paths: d.paths,
        schemas: d.definitions,
        security_schemes: d.security_definitions,
        server_url: d.base_path,
    }
}

impl DocumentV3 {
    /// The key stores have pairwise distinct keys.
    pub open spec fn wf(&self) -> bool {
        &&& self.paths.wf()
        &&& self.schemas.wf()
        &&& self.security_schemes.wf()
    }

    /// Creates the empty target-version document.
    pub fn new() -> (r: Self)
        ensures
            r.wf(),
            r@.paths == Map::<Seq<char>, PathItemModel>::empty(),
            r@.schemas == Map::<Seq<char>, u64>::empty(),
            r@.security_schemes == Map::<Seq<char>, u64>::empty(),
            r@.server_url is None,
    {
        DocumentV3 {
            paths: StrMap::new(),
            schemas: StrMap::new(),
            security_schemes: StrMap::new(),
            server_url: None,
        }
    }
}

impl Document {
    /// Derives the target-version document from this snapshot without
    /// disturbing it. The result is a pure function of the snapshot's
    /// abstract value.
    pub fn translate(&self) -> (r: DocumentV3)
        requires
            self.wf(),
        ensures
            r.wf(),
            r@ == translate_model(self@),
    {
        let url: Option<String> = match &self.base_path {
            Some(b) => Some(b.clone()),
            None => None,
        };
        let r = DocumentV3 {
            paths: self.paths.dup(),
            schemas: self.definitions.dup(),
            security_schemes: self.security_definitions.dup(),
            server_url: url,
        };
        proof {
            assert(r@ =~= translate_model(self@));
        }
        r
    }
}

/// Law: version translation is a pure function of the document snapshot.
/// Together with the exact postcondition of [`Document::translate`], two
/// translations of the same snapshot are structurally identical.
pub proof fn lemma_translate_pure(d1: DocumentModel, d2: DocumentModel)
    requires
        d1 == d2,
    ensures
        translate_model(d1) == translate_model(d2),
{
}

} // verus!

