use crate::bytestr::bytes_eq;
use vstd::prelude::*;
use vstd::string::StringSliceAdditionalSpecFns;

verus! {

/// The closed set of role tags of the platform. Any other tag is rejected at
/// the validation boundary.
#[derive(Debug, Clone, Copy, PartialEq, Eq, Structural)]
pub enum Role {
    Student,
    Teacher,
    Parent,
}

/// The wire tag of a role, as a byte sequence.
pub open spec fn role_bytes(r: Role) -> Seq<u8> {
    match r {
        Role::Student => seq![115u8, 116u8, 117u8, 100u8, 101u8, 110u8, 116u8],
        Role::Teacher => seq![116u8, 101u8, 97u8, 99u8, 104u8, 101u8, 114u8],
        Role::Parent => seq![112u8, 97u8, 114u8, 101u8, 110u8, 116u8],
    }
}

/// The role of a wire tag, if it belongs to the closed set.
pub open spec fn spec_role_of(tag: Seq<u8>) -> Option<Role> {
    if tag == role_bytes(Role::Student) {
        Some(Role::Student)
    } else if tag == role_bytes(Role::Teacher) {
        Some(Role::Teacher)
    } else if tag == role_bytes(Role::Parent) {
        Some(Role::Parent)
    } else {
        None
    }
}

pub proof fn lemma_role_bytes_injective(a: Role, b: Role)
    requires
        role_bytes(a) == role_bytes(b),
    ensures
        a == b,
{
    if a != b {
        assert(role_bytes(a)[0] != role_bytes(b)[0] || role_bytes(a)[1] != role_bytes(b)[1]);
    }
}

impl Role {
    /// Parses a role tag given as bytes; returns `None` on any tag outside
    /// the closed set.
    pub fn from_tag_bytes(tag: &[u8]) -> (r: Option<Role>)
        ensures
            match r {
                Some(role) => tag@ == role_bytes(role),
                None => forall|role: Role| tag@ != role_bytes(role),
            },
    {
        let student: Vec<u8> = vec![115u8, 116u8, 117u8, 100u8, 101u8, 110u8, 116u8];
        let teacher: Vec<u8> = vec![116u8, 101u8, 97u8, 99u8, 104u8, 101u8, 114u8];
        let parent: Vec<u8> = vec![112u8, 97u8, 114u8, 101u8, 110u8, 116u8];
        if bytes_eq(tag, student.as_slice()) {
            proof { assert(tag@ =~= role_bytes(Role::Student)); }
            Some(Role::Student)
        } else if bytes_eq(tag, teacher.as_slice()) {
            proof { assert(tag@ =~= role_bytes(Role::Teacher)); }
            Some(Role::Teacher)
        } else if bytes_eq(tag, parent.as_slice()) {
            proof { assert(tag@ =~= role_bytes(Role::Parent)); }
            Some(Role::Parent)
        } else {
            proof {
                assert(student@ =~= role_bytes(Role::Student));
                assert(teacher@ =~= role_bytes(Role::Teacher));
                assert(parent@ =~= role_bytes(Role::Parent));
            }
            None
        }
    }

    /// Parses a role tag given as a string.
    pub fn from_tag(tag: &str) -> (r: Option<Role>)
        ensures
            match r {
                Some(role) => tag.spec_bytes() == role_bytes(role),
                None => forall|role: Role| tag.spec_bytes() != role_bytes(role),
            },
    {
        Role::from_tag_bytes(tag.as_bytes())
    }

    /// The wire tag of this role.
    pub fn tag(&self) -> (r: &'static str)
        ensures
            r.spec_bytes() == role_bytes(*self),
            r@.len() == role_bytes(*self).len(),
            forall|i: int| 0 <= i < r@.len() ==> r@[i] as u32 == role_bytes(*self)[i] as u32,
    {
        let r = match self {
            Role::Student => "student",
            Role::Teacher => "teacher",
            Role::Parent => "parent",
        };
        proof {
            reveal_strlit("student");
            reveal_strlit("teacher");
            reveal_strlit("parent");
            crate::bytestr::lemma_ascii_str_bytes(r@, role_bytes(*self));
        }
        r
    }
}

} // verus!
