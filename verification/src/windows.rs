//! Window-lifecycle decisions: deterministic identifier derivation for
//! detached panel windows and the duplicate-open rule over the set of
//! windows that currently exist.
use vstd::prelude::*;
use vstd::string::StringExecFns;

use crate::text::views;

verus! {

/// The identifier a detached window gets for a component.
pub open spec fn window_id_spec(component: Seq<char>) -> Seq<char> {
    "detached_"@ + component
}

/// Deterministic window identifier: the fixed prefix followed by the
/// component name.
pub fn derive_window_id(component: &str) -> (r: String)
    ensures
        r@ == window_id_spec(component@),
{
    String::from_str("detached_").concat(component)
}

/// The labels of the windows that currently exist, in creation order.
pub struct WindowRegistry {
    pub windows: Vec<String>,
}

impl WindowRegistry {
    pub open spec fn labels(self) -> Seq<Seq<char>> {
        views(self.windows@)
    }

    pub fn new() -> (r: WindowRegistry)
        ensures
            r.labels().len() == 0,
    {
        let r = WindowRegistry { windows: Vec::new() };
        proof {
            assert(views(r.windows@) =~= Seq::<Seq<char>>::empty());
        }
        r
    }

    fn has_label(&self, id: &String) -> (r: bool)
        ensures
            r == self.labels().contains(id@),
    {
        let n = self.windows.len();
        let mut i: usize = 0;
        while i < n
            invariant
                i <= n,
                n == self.windows@.len(),
                forall|j: int| 0 <= j < i ==> self.windows@[j]@ != id@,
            decreases n - i,
        {
            if self.windows[i].eq(id) {
                proof {
                    assert(self.labels()[i as int] == id@);
                }
                return true;
            }
            i += 1;
        }
        proof {
            assert forall|j: int| 0 <= j < self.labels().len() implies self.labels()[j] != id@ by {
                assert(self.labels()[j] == self.windows@[j]@);
            }
        }
        false
    }

    /// Open a detached window for `component`: rejected with the
    /// duplicate-window error when a window with the derived identifier
    /// already exists, otherwise the identifier is recorded and returned.
    pub fn create_detached_window(&mut self, component: &str) -> (r: Result<String, String>)
        ensures
            old(self).labels().contains(window_id_spec(component@)) ==> *final(self) == *old(self)
                && (r matches Err(e) && e@ == "Window already exists"@),
            !old(self).labels().contains(window_id_spec(component@)) ==> final(self).labels()
                == old(self).labels().push(window_id_spec(component@)) && (r matches Ok(id) && id@
                == window_id_spec(component@)),
    {
        let id = derive_window_id(component);
        if self.has_label(&id) {
            Err(String::from_str("Window already exists"))
        } else {
            let out = id.clone();
            proof {
                crate::text::lemma_views_push(self.windows@, id);
            }
            self.windows.push(id);
            Ok(out)
        }
    }
}

/// After a successful open records a component's window identifier, an
/// immediate second open of the same component finds a duplicate and is
/// rejected.
pub proof fn lemma_duplicate_open_rejected(labels: Seq<Seq<char>>, component: Seq<char>)
    ensures
        labels.push(window_id_spec(component)).contains(window_id_spec(component)),
{
    assert(labels.push(window_id_spec(component))[labels.len() as int] == window_id_spec(
        component,
    ));
}

} // verus!
