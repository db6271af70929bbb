//! An allow-list of application ids gating which applications may use a
//! component.  An empty list allows every application; a non-empty list is an
//! exact-match allow-list, with no prefix or wildcard semantics.

use vstd::prelude::*;

verus! {

/// Whether an application id is allowed by a list of scopes: every id when
/// the list is empty, otherwise exactly the listed ids.
pub open spec fn scopes_allow(scopes: Seq<Seq<char>>, app_id: Seq<char>) -> bool {
    scopes.len() == 0 || exists|i: int| 0 <= i < scopes.len() && scopes[i] == app_id
}

/// A base for components and other resources that can be scoped to apps.
pub struct Scoped {
    /// The application ids allowed to use the resource; empty means all.
    pub scopes: Vec<String>,
}

impl Scoped {
    /// A scope list allowing every application.
    pub fn new() -> (r: Self)
        ensures
            r.scopes@.len() == 0,
    {
        Scoped { scopes: Vec::new() }
    }

    /// A scope list holding exactly the given ids.
    pub fn with_scopes(scopes: Vec<String>) -> (r: Self)
        ensures
            r.scopes == scopes,
    {
        Scoped { scopes }
    }

    /// True when the application id is allowed by the scopes: always when
    /// the list is empty, otherwise exactly when some entry equals the id.
    /// No normalization: matching is case-sensitive and untrimmed.
    pub fn is_app_scoped(&self, app_id: &str) -> (r: bool)
        ensures
            r == scopes_allow(self.scopes.deep_view(), app_id@),
    {
        if self.scopes.len() == 0 {
            return true;
        }
        let wanted = app_id.to_owned();
        let mut i: usize = 0;
        while i < self.scopes.len()
            invariant
                i <= self.scopes@.len(),
                wanted@ == app_id@,
                forall|k: int| 0 <= k < i ==> self.scopes.deep_view()[k] != app_id@,
            decreases self.scopes@.len() - i,
        {
            if self.scopes[i] == wanted {
                proof {
                    assert(self.scopes.deep_view()[i as int] == app_id@);
                }
                return true;
            }
            i = i + 1;
        }
        false
    }
}

impl Clone for Scoped {
    fn clone(&self) -> (r: Self)
        ensures
            r.scopes.deep_view() == self.scopes.deep_view(),
    {
        let scopes = self.scopes.clone();
        proof {
            assert forall|k: int|
                0 <= k < scopes@.len() implies scopes.deep_view()[k] == self.scopes.deep_view()[k] by {
                assert(cloned::<String>(self.scopes[k], scopes[k]));
            }
            assert(scopes.deep_view() =~~= self.scopes.deep_view());
        }
        Scoped { scopes }
    }
}

impl Default for Scoped {
    /// The default scope list allows every application.
    fn default() -> (r: Self)
        ensures
            r.scopes@.len() == 0,
    {
        Scoped::new()
    }
}

/// With an empty scope list, every application id is allowed.
pub proof fn lemma_empty_scopes_allow_all(scopes: Seq<Seq<char>>, app_id: Seq<char>)
    requires
        scopes.len() == 0,
    ensures
        scopes_allow(scopes, app_id),
{
}

/// With a non-empty scope list, an application id is allowed exactly when it
/// equals some listed entry.
pub proof fn lemma_scopes_exact_match(scopes: Seq<Seq<char>>, app_id: Seq<char>)
    requires
        scopes.len() > 0,
    ensures
        scopes_allow(scopes, app_id) <==> exists|i: int|
            0 <= i < scopes.len() && scopes[i] == app_id,
{
}

} // verus!
