//! Cluster-node administration states: availability and scheduling
//! policy, with their textual forms as the control plane exchanges
//! them.

use vstd::prelude::*;
use vstd::string::{StringExecFns, StrSliceExecFns};

verus! {

/// Why a state name was refused.
#[derive(Clone, Copy, PartialEq, Eq, Structural, Debug)]
pub enum NodePolicyError {
    UnknownAvailability,
    UnknownScheduling,
}

/// Whether tenants may attach to a node.
#[derive(Clone, Copy, PartialEq, Eq, Structural, Debug)]
pub enum NodeAvailability {
    /// Normal, happy state
    Active,
    /// Offline: tenants shouldn't try to attach here, but they may
    /// still have secondary locations on this node. Newly added nodes
    /// are in this state until first contact.
    Offline,
}

/// Whether the scheduler may place work on a node.
#[derive(Clone, Copy, PartialEq, Eq, Structural, Debug)]
pub enum NodeSchedulingPolicy {
    Active,
    Filling,
    Pause,
    Draining,
}

/// Character-for-character comparison of a string against a pattern.
fn chars_match(s: &str, pat: &Vec<char>) -> (r: bool)
    ensures
        r == (s@ == pat@),
{
    let n = s.unicode_len();
    if n != pat.len() {
        proof {
            assert(pat@.len() == pat.len());
        }
        return false;
    }
    let mut i: usize = 0;
    while i < n
        invariant
            i <= n,
            n == s@.len(),
            n == pat@.len(),
            forall|j: int| 0 <= j < i ==> s@[j] == pat@[j],
        decreases n - i,
    {
        if s.get_char(i) != pat[i] {
            return false;
        }
        i += 1;
    }
    proof {
        assert(s@ =~= pat@);
    }
    true
}

impl NodeAvailability {
    /// The state a lower-case name denotes, if any.
    pub fn parse_name(s: &str) -> (r: Result<NodeAvailability, NodePolicyError>)
        ensures
            s@ == "active"@ ==> r == Result::<NodeAvailability, NodePolicyError>::Ok(
                NodeAvailability::Active,
            ),
            s@ == "offline"@ ==> r == Result::<NodeAvailability, NodePolicyError>::Ok(
                NodeAvailability::Offline,
            ),
            s@ != "active"@ && s@ != "offline"@ ==> r == Result::<
                NodeAvailability,
                NodePolicyError,
            >::Err(NodePolicyError::UnknownAvailability),
    {
        proof {
            reveal_strlit("active");
            reveal_strlit("offline");
        }
        if chars_match(s, &vec!['a', 'c', 't', 'i', 'v', 'e']) {
            proof {
                assert(s@ =~= "active"@);
            }
            Ok(NodeAvailability::Active)
        } else if chars_match(s, &vec!['o', 'f', 'f', 'l', 'i', 'n', 'e']) {
            proof {
                assert(s@ =~= "offline"@);
            }
            Ok(NodeAvailability::Offline)
        } else {
            proof {
                assert("active"@ =~= seq!['a', 'c', 't', 'i', 'v', 'e']);
                assert("offline"@ =~= seq!['o', 'f', 'f', 'l', 'i', 'n', 'e']);
            }
            Err(NodePolicyError::UnknownAvailability)
        }
    }
}

impl core::str::FromStr for NodeAvailability {
    type Err = NodePolicyError;

    fn from_str(s: &str) -> Result<NodeAvailability, NodePolicyError> {
        NodeAvailability::parse_name(s)
    }
}

impl NodeSchedulingPolicy {
    /// The policy a lower-case name denotes, if any.
    pub fn parse_name(s: &str) -> (r: Result<NodeSchedulingPolicy, NodePolicyError>)
        ensures
            s@ == "active"@ ==> r == Result::<NodeSchedulingPolicy, NodePolicyError>::Ok(
                NodeSchedulingPolicy::Active,
            ),
            s@ == "filling"@ ==> r == Result::<NodeSchedulingPolicy, NodePolicyError>::Ok(
                NodeSchedulingPolicy::Filling,
            ),
            s@ == "pause"@ ==> r == Result::<NodeSchedulingPolicy, NodePolicyError>::Ok(
                NodeSchedulingPolicy::Pause,
            ),
            s@ == "draining"@ ==> r == Result::<NodeSchedulingPolicy, NodePolicyError>::Ok(
                NodeSchedulingPolicy::Draining,
            ),
            (s@ != "active"@ && s@ != "filling"@ && s@ != "pause"@ && s@ != "draining"@) ==> r
                == Result::<NodeSchedulingPolicy, NodePolicyError>::Err(
                NodePolicyError::UnknownScheduling,
            ),
    {
        proof {
            reveal_strlit("active");
            reveal_strlit("filling");
            reveal_strlit("pause");
            reveal_strlit("draining");
            assert("active"@ =~= seq!['a', 'c', 't', 'i', 'v', 'e']);
            assert("filling"@ =~= seq!['f', 'i', 'l', 'l', 'i', 'n', 'g']);
            assert("pause"@ =~= seq!['p', 'a', 'u', 's', 'e']);
            assert("draining"@ =~= seq!['d', 'r', 'a', 'i', 'n', 'i', 'n', 'g']);
        }
        if chars_match(s, &vec!['a', 'c', 't', 'i', 'v', 'e']) {
            Ok(NodeSchedulingPolicy::Active)
        } else if chars_match(s, &vec!['f', 'i', 'l', 'l', 'i', 'n', 'g']) {
            Ok(NodeSchedulingPolicy::Filling)
        } else if chars_match(s, &vec!['p', 'a', 'u', 's', 'e']) {
            Ok(NodeSchedulingPolicy::Pause)
        } else if chars_match(s, &vec!['d', 'r', 'a', 'i', 'n', 'i', 'n', 'g']) {
            Ok(NodeSchedulingPolicy::Draining)
        } else {
            Err(NodePolicyError::UnknownScheduling)
        }
    }

    /// The policy's name, the inverse of [`Self::parse_name`].
    pub fn name(&self) -> (r: String)
        ensures
            (match self {
                NodeSchedulingPolicy::Active => r@ == "active"@,
                NodeSchedulingPolicy::Filling => r@ == "filling"@,
                NodeSchedulingPolicy::Pause => r@ == "pause"@,
                NodeSchedulingPolicy::Draining => r@ == "draining"@,
            }),
    {
        match self {
            NodeSchedulingPolicy::Active => String::from_str("active"),
            NodeSchedulingPolicy::Filling => String::from_str("filling"),
            NodeSchedulingPolicy::Pause => String::from_str("pause"),
            NodeSchedulingPolicy::Draining => String::from_str("draining"),
        }
    }
}

impl core::str::FromStr for NodeSchedulingPolicy {
    type Err = NodePolicyError;

    fn from_str(s: &str) -> Result<NodeSchedulingPolicy, NodePolicyError> {
        NodeSchedulingPolicy::parse_name(s)
    }
}

} // verus!
