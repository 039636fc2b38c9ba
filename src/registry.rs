//! The table of known set types, filled once and read-only afterwards.
use crate::error::IpsetSysError;
use vstd::prelude::*;

verus! {

/// One set type, such as `hash:ip`.
#[derive(Debug)]
pub struct SetType {
    /// The type's name as the kernel knows it.
    pub name: Vec<u8>,
    /// The protocol revision of the type.
    pub revision: u8,
    /// Whether sets of this type take a timeout.
    pub timeout: bool,
    /// Whether elements of this type are networks, with a CIDR prefix.
    pub net: bool,
}

pub struct SetTypeM {
    pub name: Seq<u8>,
    pub revision: u8,
    pub timeout: bool,
    pub net: bool,
}

impl View for SetType {
    type V = SetTypeM;

    open spec fn view(&self) -> SetTypeM {
        SetTypeM { name: self.name@, revision: self.revision, timeout: self.timeout, net: self.net }
    }
}

pub open spec fn names_unique(s: Seq<SetTypeM>) -> bool {
    forall|i: int, j: int| 0 <= i < j < s.len() ==> s[i].name != s[j].name
}

/// The type named `name` among `s`, if there is one.
pub open spec fn find_type(s: Seq<SetTypeM>, name: Seq<u8>) -> Option<SetTypeM> {
    if exists|i: int| 0 <= i < s.len() && s[i].name == name {
        let i = choose|i: int| 0 <= i < s.len() && s[i].name == name;
        Some(s[i])
    } else {
        None
    }
}

/// Known set types, each name at most once.
pub struct TypeRegistry {
    types: Vec<SetType>,
}

impl View for TypeRegistry {
    type V = Seq<SetTypeM>;

    closed spec fn view(&self) -> Seq<SetTypeM> {
        self.types@.map_values(|t: SetType| t@)
    }
}

pub(crate) fn same_bytes(a: &[u8], b: &[u8]) -> (r: bool)
    ensures
        r == (a@ == b@),
{
    if a.len() != b.len() {
        return false;
    }
    let mut i: usize = 0;
    while i < a.len()
        invariant
            a@.len() == b@.len(),
            i <= a@.len(),
            forall|k: int| 0 <= k < i ==> a@[k] == b@[k],
        decreases a@.len() - i,
    {
        if a[i] != b[i] {
            return false;
        }
        i = i + 1;
    }
    assert(a@ =~= b@);
    true
}

impl TypeRegistry {
    pub open spec fn wf(&self) -> bool {
        names_unique(self@)
    }

    /// Builds the registry from the types the kernel reported; two types of
    /// one name are `CantInit`.
    pub fn load(types: Vec<SetType>) -> (r: Result<TypeRegistry, IpsetSysError>)
        ensures
            match r {
                Ok(reg) => reg.wf() && reg@ == types@.map_values(|t: SetType| t@),
                Err(e) => e == IpsetSysError::CantInit && !names_unique(types@.map_values(|t: SetType| t@)),
            },
    {
        let ghost s = types@.map_values(|t: SetType| t@);
        let n: usize = types.len();
        let mut i: usize = 0;
        while i < n
            invariant
                n == types@.len(),
                s == types@.map_values(|t: SetType| t@),
                i <= n,
                forall|a: int, b: int| 0 <= a < i && a < b < n ==> s[a].name != s[b].name,
            decreases n - i,
        {
            let mut j: usize = i + 1;
            while j < n
                invariant
                    n == types@.len(),
                    s == types@.map_values(|t: SetType| t@),
                    i < j <= n,
                    forall|a: int, b: int| 0 <= a < i && a < b < n ==> s[a].name != s[b].name,
                    forall|b: int| i < b < j ==> s[i as int].name != s[b].name,
                decreases n - j,
            {
                if same_bytes(types[i].name.as_slice(), types[j].name.as_slice()) {
                    assert(s[i as int].name == s[j as int].name);
                    return Err(IpsetSysError::CantInit);
                }
                j = j + 1;
            }
            i = i + 1;
        }
        Ok(TypeRegistry { types })
    }

    /// The type named `name`, if the registry knows it.
    pub fn lookup(&self, name: &[u8]) -> (r: Option<&SetType>)
        requires
            self.wf(),
        ensures
            match r {
                None => find_type(self@, name@) is None,
                Some(t) => find_type(self@, name@) == Some(t@),
            },
    {
        let ghost s = self@;
        let mut i: usize = 0;
        while i < self.types.len()
            invariant
                s == self@,
                names_unique(s),
                i <= self.types@.len(),
                forall|k: int| 0 <= k < i ==> s[k].name != name@,
            decreases self.types@.len() - i,
        {
            if same_bytes(self.types[i].name.as_slice(), name) {
                proof {
                    assert(s[i as int].name == name@);
                    let k = choose|k: int| 0 <= k < s.len() && s[k].name == name@;
                    if k != i {
                        assert(s[k].name == s[i as int].name);
                    }
                }
                return Some(&self.types[i]);
            }
            i = i + 1;
        }
        None
    }
}

} // verus!
