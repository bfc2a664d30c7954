//! Instructors, and the registry that gives one shared handle per name.
use std::sync::Arc;
use vstd::prelude::*;

verus! {

/// An instructor, known by display name.
#[derive(Debug, Clone, PartialEq, Eq)]
pub struct Prof {
    name: String,
}

impl View for Prof {
    type V = Seq<char>;

    closed spec fn view(&self) -> Seq<char> {
        self.name@
    }
}

impl Prof {
    pub fn name(&self) -> (r: &str)
        ensures
            r@ == self@,
    {
        self.name.as_str()
    }

    pub fn new(name: String) -> (r: Self)
        ensures
            r@ == name@,
    {
        Prof { name }
    }

    /// The display name, as an owned string.
    pub fn to_string(&self) -> (r: String)
        ensures
            r@ == self@,
    {
        self.name.clone()
    }
}

/// Relies on `Arc::clone`: the new handle points to the same instructor.
#[verifier::external_body]
pub fn share(p: &Arc<Prof>) -> (r: Arc<Prof>)
    ensures
        r == *p,
{
    Arc::clone(p)
}

pub open spec fn names_distinct(names: Seq<Seq<char>>) -> bool {
    forall|i: int, j: int| 0 <= i < j < names.len() ==> names[i] != names[j]
}

/// The registry's names after looking up or adding `name`.
pub open spec fn with_name(names: Seq<Seq<char>>, name: Seq<char>) -> Seq<Seq<char>> {
    if names.contains(name) {
        names
    } else {
        names.push(name)
    }
}

/// Looking up or adding a name keeps the registry's names distinct: a name
/// never stands for two instructors.
pub proof fn lemma_with_name_distinct(names: Seq<Seq<char>>, name: Seq<char>)
    requires
        names_distinct(names),
    ensures
        names_distinct(with_name(names, name)),
{
}

/// The instructors met while parsing one dataset, one handle per distinct
/// name, in order of first mention.
pub struct ProfRegistry {
    profs: Vec<Arc<Prof>>,
}

impl View for ProfRegistry {
    type V = Seq<Seq<char>>;

    closed spec fn view(&self) -> Seq<Seq<char>> {
        self.profs@.map_values(|p: Arc<Prof>| p@)
    }
}

impl ProfRegistry {
    pub fn new() -> (r: Self)
        ensures
            r@ == Seq::<Seq<char>>::empty(),
    {
        let r = ProfRegistry { profs: Vec::new() };
        assert(r@ =~= Seq::<Seq<char>>::empty());
        r
    }

    pub fn len(&self) -> (r: usize)
        ensures
            r == self@.len(),
    {
        self.profs.len()
    }

    /// The handle of the instructor called `name`, added if it is new.
    pub fn intern(&mut self, name: String) -> (r: Arc<Prof>)
        ensures
            r@ == name@,
            final(self)@ == with_name(old(self)@, name@),
            final(self)@.contains(name@),
    {
        let mut i: usize = 0;
        while i < self.profs.len()
            invariant
                i <= self@.len(),
                self@.len() == self.profs@.len(),
                forall|j: int| 0 <= j < i ==> self@[j] != name@,
            decreases self.profs@.len() - i,
        {
            let found = {
                let p: &Prof = &self.profs[i];
                let n = p.name();
                string_eq(n, name.as_str())
            };
            if found {
                assert(self@[i as int] == name@);
                assert(self@.contains(name@));
                return share(&self.profs[i]);
            }
            i = i + 1;
        }
        assert(!self@.contains(name@));
        let arc = Arc::new(Prof::new(name));
        let handle = share(&arc);
        let ghost before = self@;
        self.profs.push(arc);
        assert(self@ =~= before.push(name@));
        assert(self@[before.len() as int] == name@);
        handle
    }
}

fn string_eq(a: &str, b: &str) -> (r: bool)
    ensures
        r == (a@ == b@),
{
    let x = crate::text::chars_of(a);
    let y = crate::text::chars_of(b);
    crate::text::chars_eq(x.as_slice(), y.as_slice())
}

} // verus!
