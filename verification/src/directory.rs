use crate::bytestr::{bytes_eq, str_bytes};
use crate::errors::AppError;
use crate::role::Role;
use crate::user::{Parent, Student, Teacher, User};
use vstd::prelude::*;
use vstd::string::StringSliceAdditionalSpecFns;

verus! {

// The user directory: the sole owner of identity rows and uniqueness
// enforcement. `create` checks and inserts in one call on a directory held
// behind exclusive access, so of two registrations with one email exactly
// one can succeed and the other sees the conflict; the matching role
// profile row is created in the same call, all or nothing.

pub struct UserDirectory {
    pub users: Vec<User>,
    pub students: Vec<Student>,
    pub teachers: Vec<Teacher>,
    pub parents: Vec<Parent>,
}

impl UserDirectory {
    /// Some user row carries this email.
    pub open spec fn email_taken(self, email: Seq<u8>) -> bool {
        exists|i: int|
            0 <= i < self.users@.len() && str_bytes(#[trigger] self.users@[i].email@) == email
    }

    /// Some user row carries this id.
    pub open spec fn id_taken(self, id: Seq<u8>) -> bool {
        exists|i: int|
            0 <= i < self.users@.len() && str_bytes(#[trigger] self.users@[i].id@) == id
    }

    /// A role profile row of the user's role carries the user's id.
    pub open spec fn has_profile_for(self, u: User) -> bool {
        match u.role {
            Role::Student => exists|k: int|
                0 <= k < self.students@.len() && (#[trigger] self.students@[k]).id@ == u.id@,
            Role::Teacher => exists|k: int|
                0 <= k < self.teachers@.len() && (#[trigger] self.teachers@[k]).id@ == u.id@,
            Role::Parent => exists|k: int|
                0 <= k < self.parents@.len() && (#[trigger] self.parents@[k]).id@ == u.id@,
        }
    }

    /// The directory invariant: no two rows share an email or an id, every
    /// user's role tag matches an existing role profile row, and no user row
    /// holds an empty password hash.
    pub open spec fn wf(self) -> bool {
        &&& forall|i: int, j: int|
            0 <= i < j < self.users@.len() ==> str_bytes(#[trigger] self.users@[i].email@)
                != str_bytes(#[trigger] self.users@[j].email@)
        &&& forall|i: int, j: int|
            0 <= i < j < self.users@.len() ==> str_bytes(#[trigger] self.users@[i].id@)
                != str_bytes(#[trigger] self.users@[j].id@)
        &&& forall|i: int| 0 <= i < self.users@.len() ==> self.has_profile_for(
                #[trigger] self.users@[i],
            )
        &&& forall|i: int| 0 <= i < self.users@.len() ==> (#[trigger] self.users@[i]).password_hash@.len() > 0
    }

    /// An empty directory, well-formed from the start.
    pub fn new() -> (r: UserDirectory)
        ensures
            r.users@.len() == 0,
            r.students@.len() == 0,
            r.teachers@.len() == 0,
            r.parents@.len() == 0,
            r.wf(),
    {
        UserDirectory { users: Vec::new(), students: Vec::new(), teachers: Vec::new(), parents: Vec::new() }
    }

    /// Looks a user up by email. A miss is an explicit empty result, never an
    /// error.
    pub fn find_by_email(&self, email: &str) -> (r: Option<&User>)
        ensures
            match r {
                Some(u) => str_bytes(u.email@) == email.spec_bytes() && exists|i: int|
                    0 <= i < self.users@.len() && #[trigger] self.users@[i] == *u,
                None => !self.email_taken(email.spec_bytes()),
            },
    {
        let n = self.users.len();
        let mut i: usize = 0;
        while i < n
            invariant
                n == self.users@.len(),
                0 <= i <= n,
                forall|j: int|
                    0 <= j < i ==> str_bytes(#[trigger] self.users@[j].email@)
                        != email.spec_bytes(),
            decreases n - i,
        {
            let u = &self.users[i];
            if bytes_eq(u.email.as_str().as_bytes(), email.as_bytes()) {
                return Some(u);
            }
            i = i + 1;
        }
        None
    }

    /// Looks a user up by id. A miss is an explicit empty result, never an
    /// error.
    pub fn find_by_id(&self, id: &str) -> (r: Option<&User>)
        ensures
            match r {
                Some(u) => str_bytes(u.id@) == id.spec_bytes() && exists|i: int|
                    0 <= i < self.users@.len() && #[trigger] self.users@[i] == *u,
                None => !self.id_taken(id.spec_bytes()),
            },
    {
        let n = self.users.len();
        let mut i: usize = 0;
        while i < n
            invariant
                n == self.users@.len(),
                0 <= i <= n,
                forall|j: int|
                    0 <= j < i ==> str_bytes(#[trigger] self.users@[j].id@) != id.spec_bytes(),
            decreases n - i,
        {
            let u = &self.users[i];
            if bytes_eq(u.id.as_str().as_bytes(), id.as_bytes()) {
                return Some(u);
            }
            i = i + 1;
        }
        None
    }

    /// The student profile row of a user id.
    pub fn find_student(&self, id: &str) -> (r: Option<&Student>)
        ensures
            match r {
                Some(s) => str_bytes(s.id@) == id.spec_bytes() && exists|k: int|
                    0 <= k < self.students@.len() && #[trigger] self.students@[k] == *s,
                None => forall|k: int|
                    0 <= k < self.students@.len() ==> str_bytes(
                        (#[trigger] self.students@[k]).id@,
                    ) != id.spec_bytes(),
            },
    {
        let n = self.students.len();
        let mut i: usize = 0;
        while i < n
            invariant
                n == self.students@.len(),
                0 <= i <= n,
                forall|k: int|
                    0 <= k < i ==> str_bytes((#[trigger] self.students@[k]).id@)
                        != id.spec_bytes(),
            decreases n - i,
        {
            let s = &self.students[i];
            if bytes_eq(s.id.as_str().as_bytes(), id.as_bytes()) {
                return Some(s);
            }
            i = i + 1;
        }
        None
    }

    /// The teacher profile row of a user id.
    pub fn find_teacher(&self, id: &str) -> (r: Option<&Teacher>)
        ensures
            match r {
                Some(t) => str_bytes(t.id@) == id.spec_bytes() && exists|k: int|
                    0 <= k < self.teachers@.len() && #[trigger] self.teachers@[k] == *t,
                None => forall|k: int|
                    0 <= k < self.teachers@.len() ==> str_bytes(
                        (#[trigger] self.teachers@[k]).id@,
                    ) != id.spec_bytes(),
            },
    {
        let n = self.teachers.len();
        let mut i: usize = 0;
        while i < n
            invariant
                n == self.teachers@.len(),
                0 <= i <= n,
                forall|k: int|
                    0 <= k < i ==> str_bytes((#[trigger] self.teachers@[k]).id@)
                        != id.spec_bytes(),
            decreases n - i,
        {
            let t = &self.teachers[i];
            if bytes_eq(t.id.as_str().as_bytes(), id.as_bytes()) {
                return Some(t);
            }
            i = i + 1;
        }
        None
    }

    /// The parent profile row of a user id.
    pub fn find_parent(&self, id: &str) -> (r: Option<&Parent>)
        ensures
            match r {
                Some(p) => str_bytes(p.id@) == id.spec_bytes() && exists|k: int|
                    0 <= k < self.parents@.len() && #[trigger] self.parents@[k] == *p,
                None => forall|k: int|
                    0 <= k < self.parents@.len() ==> str_bytes(
                        (#[trigger] self.parents@[k]).id@,
                    ) != id.spec_bytes(),
            },
    {
        let n = self.parents.len();
        let mut i: usize = 0;
        while i < n
            invariant
                n == self.parents@.len(),
                0 <= i <= n,
                forall|k: int|
                    0 <= k < i ==> str_bytes((#[trigger] self.parents@[k]).id@)
                        != id.spec_bytes(),
            decreases n - i,
        {
            let p = &self.parents[i];
            if bytes_eq(p.id.as_str().as_bytes(), id.as_bytes()) {
                return Some(p);
            }
            i = i + 1;
        }
        None
    }

    /// Creates a user row and its matching role profile row in one exclusive
    /// call: the duplicate-email check and the insert cannot be interleaved
    /// with another creation, and either both rows appear or neither does.
    pub fn create(&mut self, user: User) -> (r: Result<(), AppError>)
        requires
            old(self).wf(),
            user.password_hash@.len() > 0,
        ensures
            match r {
                Ok(()) => {
                    &&& !old(self).email_taken(str_bytes(user.email@))
                    &&& !old(self).id_taken(str_bytes(user.id@))
                    &&& final(self).users@ == old(self).users@.push(user)
                    &&& final(self).email_taken(str_bytes(user.email@))
                    &&& final(self).has_profile_for(user)
                    &&& final(self).wf()
                },
                Err(e) => {
                    &&& final(self).users@ == old(self).users@
                    &&& final(self).students@ == old(self).students@
                    &&& final(self).teachers@ == old(self).teachers@
                    &&& final(self).parents@ == old(self).parents@
                    &&& (e is ValidationError <==> old(self).email_taken(str_bytes(user.email@)))
                    &&& (e is ValidationError || e is InternalServerError)
                    &&& (e is InternalServerError ==> old(self).id_taken(str_bytes(user.id@)))
                },
            },
    {
        if self.find_by_email(user.email.as_str()).is_some() {
            proof {
                assert(self.email_taken(str_bytes(user.email@)));
            }
            return Err(AppError::ValidationError(String::from_str("User already exists")));
        }
        if self.find_by_id(user.id.as_str()).is_some() {
            proof {
                assert(self.id_taken(str_bytes(user.id@)));
            }
            return Err(AppError::InternalServerError(String::from_str("Duplicate user id")));
        }
        let ghost old_self = *self;
        match user.role {
            Role::Student => {
                let profile = Student {
                    id: user.id.clone(),
                    grade: String::from_str("Not Set"),
                    subjects: Vec::new(),
                    parent_id: None,
                    school_id: None,
                    moodle_user_id: None,
                };
                self.students.push(profile);
                proof {
                    assert(self.students@[self.students@.len() - 1].id@ == user.id@);
                    assert(self.has_profile_for(user));
                }
            },
            Role::Teacher => {
                let profile = Teacher {
                    id: user.id.clone(),
                    subjects: Vec::new(),
                    grades: Vec::new(),
                    school_id: None,
                    department: None,
                    moodle_user_id: None,
                };
                self.teachers.push(profile);
                proof {
                    assert(self.teachers@[self.teachers@.len() - 1].id@ == user.id@);
                    assert(self.has_profile_for(user));
                }
            },
            Role::Parent => {
                let profile = Parent {
                    id: user.id.clone(),
                    children_ids: Vec::new(),
                    occupation: None,
                };
                self.parents.push(profile);
                proof {
                    assert(self.parents@[self.parents@.len() - 1].id@ == user.id@);
                    assert(self.has_profile_for(user));
                }
            },
        }
        let ghost mid_self = *self;
        self.users.push(user);
        proof {
            let nu = self.users@.len() - 1;
            assert(self.users@[nu] == user);
            assert(forall|i: int| 0 <= i < nu ==> self.users@[i] == old_self.users@[i]);
            assert(mid_self.has_profile_for(user));
            assert(self.has_profile_for(user));
            assert forall|i: int| 0 <= i < self.users@.len() implies self.has_profile_for(
                #[trigger] self.users@[i],
            ) by {
                if i < nu {
                    assert(old_self.has_profile_for(old_self.users@[i]));
                    let u = old_self.users@[i];
                    match u.role {
                        Role::Student => {
                            let k = choose|k: int|
                                0 <= k < old_self.students@.len() && (#[trigger] old_self.students@[k]).id@ == u.id@;
                            assert(self.students@[k].id@ == u.id@);
                        },
                        Role::Teacher => {
                            let k = choose|k: int|
                                0 <= k < old_self.teachers@.len() && (#[trigger] old_self.teachers@[k]).id@ == u.id@;
                            assert(self.teachers@[k].id@ == u.id@);
                        },
                        Role::Parent => {
                            let k = choose|k: int|
                                0 <= k < old_self.parents@.len() && (#[trigger] old_self.parents@[k]).id@ == u.id@;
                            assert(self.parents@[k].id@ == u.id@);
                        },
                    }
                }
            }
            assert(self.email_taken(str_bytes(user.email@)));
            assert(self.wf());
        }
        Ok(())
    }
}

/// No two user rows ever share an email: the invariant that `new`
/// establishes and `create` preserves keeps emails pairwise distinct.
pub proof fn lemma_no_duplicate_email(d: UserDirectory, i: int, j: int)
    requires
        d.wf(),
        0 <= i < d.users@.len(),
        0 <= j < d.users@.len(),
        i != j,
    ensures
        str_bytes(d.users@[i].email@) != str_bytes(d.users@[j].email@),
{
}

/// After a creation succeeds, its email is taken: by `create`'s contract the
/// second of two creations with one email must fail with the conflict error.
pub proof fn lemma_second_create_conflicts(d0: UserDirectory, d1: UserDirectory, u: User)
    requires
        d1.users@ == d0.users@.push(u),
    ensures
        d1.email_taken(str_bytes(u.email@)),
{
    let i = d0.users@.len() as int;
    assert(d1.users@[i] == u);
}

} // verus!
