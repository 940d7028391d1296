//! The capability interface: a caller proves it may read a column by holding
//! that column's permission token.

use vstd::prelude::*;
use vstd::string::StrSliceExecFns;

verus! {

/// A permission backend: answers whether the caller holds a token. The
/// resolver consults it once per candidate field.
pub trait Permeable {
    /// The set of permission tokens this caller holds.
    spec fn granted(&self) -> Set<Seq<char>>;

    /// Whether the caller holds `permission`.
    fn has_perm(&self, permission: &str) -> (r: bool)
        ensures
            r == self.granted().contains(permission@),
    ;
}

/// The simplest permission backend: an explicit list of granted tokens.
pub struct PermissionSet {
    /// The tokens this caller holds.
    pub tokens: Vec<String>,
}

impl PermissionSet {
    /// A backend granting exactly the given tokens.
    pub fn new(tokens: &[&str]) -> (r: PermissionSet)
        ensures
            r.granted() == Set::new(
                |s: Seq<char>| exists|i: int| 0 <= i < tokens@.len() && tokens@[i]@ == s,
            ),
    {
        let mut own: Vec<String> = Vec::new();
        let mut i: usize = 0;
        while i < tokens.len()
            invariant
                i <= tokens@.len(),
                own@.len() == i,
                forall|j: int| 0 <= j < i ==> own@[j]@ == tokens@[j]@,
            decreases tokens@.len() - i,
        {
            let t: &str = tokens[i];
            own.push(crate::chars::str_to_string(t));
            i += 1;
        }
        let r = PermissionSet { tokens: own };
        proof {
            let lhs = r.granted();
            let rhs = Set::new(
                |s: Seq<char>| exists|i: int| 0 <= i < tokens@.len() && tokens@[i]@ == s,
            );
            assert forall|s: Seq<char>| lhs.contains(s) implies rhs.contains(s) by {
                let k = choose|k: int| 0 <= k < r.tokens@.len() && r.tokens@[k]@ == s;
                assert(tokens@[k]@ == s);
            }
            assert forall|s: Seq<char>| rhs.contains(s) implies lhs.contains(s) by {
                let k = choose|k: int| 0 <= k < tokens@.len() && tokens@[k]@ == s;
                assert(r.tokens@[k]@ == s);
            }
            assert(lhs =~= rhs);
        }
        r
    }
}

impl Permeable for PermissionSet {
    /// The views of the stored tokens.
    open spec fn granted(&self) -> Set<Seq<char>> {
        Set::new(|s: Seq<char>| exists|i: int| 0 <= i < self.tokens@.len() && self.tokens@[i]@ == s)
    }

    fn has_perm(&self, permission: &str) -> (r: bool)
        ensures
            r == self.granted().contains(permission@),
    {
        let mut i: usize = 0;
        while i < self.tokens.len()
            invariant
                i <= self.tokens@.len(),
                forall|j: int| 0 <= j < i ==> self.tokens@[j]@ != permission@,
            decreases self.tokens@.len() - i,
        {
            if crate::chars::str_eq_str(self.tokens[i].as_str(), permission) {
                return true;
            }
            i += 1;
        }
        proof {
            if self.granted().contains(permission@) {
                let k = choose|k: int|
                    0 <= k < self.tokens@.len() && self.tokens@[k]@ == permission@;
            }
        }
        false
    }
}

} // verus!
