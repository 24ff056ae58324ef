//! Logical destination names.
//!
//! A logical name identifies a service for routing, as opposed to a
//! concrete socket address. Syntax is DNS-style and validated when a name
//! is parsed: dot-separated labels of letters, digits and hyphens.

use vstd::prelude::*;

verus! {

/// An ASCII letter or digit.
pub open spec fn is_alnum(c: u8) -> bool {
    (48 <= c <= 57) || (65 <= c <= 90) || (97 <= c <= 122)
}

/// The start of the label containing position `i`: the position just
/// after the last dot strictly before `i`, or 0.
pub open spec fn label_start_of(s: Seq<u8>, i: int) -> int
    decreases i,
{
    if i <= 0 {
        0
    } else if s[i - 1] == 46 {
        i
    } else {
        label_start_of(s, i - 1)
    }
}

/// DNS-style name syntax: 1 to 253 bytes of letters, digits, hyphens and
/// dots; every label (a run between dots, or before the first dot, or
/// after the last) is 1 to 63 bytes; a hyphen stands neither first nor
/// last in its label.
pub open spec fn is_valid_name(s: Seq<u8>) -> bool {
    &&& 1 <= s.len() <= 253
    &&& forall|i: int|
        0 <= i < s.len() ==> is_alnum(#[trigger] s[i]) || s[i] == 45 || s[i] == 46
    &&& forall|i: int|
        #![trigger label_start_of(s, i)]
        0 <= i <= s.len() && (i == s.len() || s[i] == 46) ==> 1 <= i - label_start_of(s, i)
            <= 63
    &&& forall|i: int|
        0 <= i < s.len() && (#[trigger] s[i]) == 45 ==> label_start_of(s, i) < i && i + 1
            < s.len() && s[i + 1] != 46
}

/// Checks `is_valid_name` over a byte slice.
pub fn check_name(s: &[u8]) -> (r: bool)
    ensures
        r == is_valid_name(s@),
{
    let n = s.len();
    if n < 1 || n > 253 {
        return false;
    }
    let mut i: usize = 0;
    let mut ls: usize = 0;
    while i < n
        invariant
            1 <= n <= 253,
            n == s@.len(),
            i <= n,
            ls <= i,
            ls == label_start_of(s@, i as int),
            forall|k: int| 0 <= k < i ==> is_alnum(#[trigger] s@[k]) || s@[k] == 45 || s@[k] == 46,
            forall|k: int|
                #![trigger label_start_of(s@, k)]
                0 <= k < i && s@[k] == 46 ==> 1 <= k - label_start_of(s@, k) <= 63,
            forall|k: int|
                0 <= k < i && (#[trigger] s@[k]) == 45 ==> label_start_of(s@, k) < k && k + 1
                    < n && s@[k + 1] != 46,
        decreases n - i,
    {
        let c = s[i];
        if c == 46 {
            if i == ls || i - ls > 63 {
                proof {
                    assert(label_start_of(s@, i as int) == ls);
                }
                return false;
            }
        } else if c == 45 {
            if ls == i || i + 1 >= n || s[i + 1] == 46 {
                proof {
                    assert(label_start_of(s@, i as int) == ls);
                }
                return false;
            }
        } else if !((48 <= c && c <= 57) || (65 <= c && c <= 90) || (97 <= c && c <= 122)) {
            proof {
                assert(s@[i as int] == c);
            }
            return false;
        }
        proof {
            assert(label_start_of(s@, i + 1) == if s@[i as int] == 46 {
                i + 1
            } else {
                label_start_of(s@, i as int)
            });
        }
        if c == 46 {
            ls = i + 1;
        }
        i += 1;
    }
    if n == ls || n - ls > 63 {
        proof {
            assert(label_start_of(s@, n as int) == ls);
        }
        return false;
    }
    proof {
        assert forall|k: int|
            0 <= k <= n && (k == n || s@[k] == 46) implies 1 <= k - #[trigger] label_start_of(
            s@,
            k,
        ) <= 63 by {
            if k == n {
                assert(label_start_of(s@, k) == ls);
            }
        }
        assert(is_valid_name(s@));
    }
    true
}

/// A validated logical name.
#[derive(Debug, Clone)]
pub struct Name {
    bytes: Vec<u8>,
}

impl View for Name {
    type V = Seq<u8>;

    closed spec fn view(&self) -> Seq<u8> {
        self.bytes@
    }
}

impl Name {
    pub open spec fn wf(&self) -> bool {
        is_valid_name(self@)
    }

    /// Accepts exactly the byte sequences that `is_valid_name` allows.
    pub fn parse(bytes: Vec<u8>) -> (r: Option<Name>)
        ensures
            r is Some <==> is_valid_name(bytes@),
            r matches Some(n) ==> n@ == bytes@ && n.wf(),
    {
        if check_name(bytes.as_slice()) {
            Some(Name { bytes })
        } else {
            None
        }
    }

    /// The name's bytes.
    pub fn as_bytes(&self) -> (r: &Vec<u8>)
        ensures
            r@ == self@,
    {
        &self.bytes
    }

    /// Gives the name's bytes up, consuming the name.
    pub fn into_bytes(self) -> (r: Vec<u8>)
        ensures
            r@ == self@,
    {
        self.bytes
    }
}

} // verus!
