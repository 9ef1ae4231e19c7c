//! Registry of the types used in the com layer, by human-readable type name.

use vstd::prelude::*;
use vstd::string::*;

verus! {

/// Type information stored in the type registry
pub struct TypeInfo<B> {
    /// Human-readable type name
    pub name: String,
    /// Builder of the transcoder that reads and serializes values of the type
    pub comrec_builder: B,
}

/// Registry of types used in the com layer
pub struct TypeRegistry<B> {
    /// Registered types, each name once
    infos: Vec<TypeInfo<B>>,
}

/// The names of the given type infos.
pub open spec fn info_names<B>(infos: Seq<TypeInfo<B>>) -> Seq<Seq<char>> {
    infos.map_values(|t: TypeInfo<B>| t.name@)
}

/// Whether no name occurs twice.
pub open spec fn unique_names(names: Seq<Seq<char>>) -> bool {
    forall|i: int, j: int| 0 <= i < j < names.len() ==> names[i] != names[j]
}

impl<B> TypeRegistry<B> {
    /// The registered type infos, in order of registration.
    pub closed spec fn infos(&self) -> Seq<TypeInfo<B>> {
        self.infos@
    }

    /// The registered type names, in order of registration.
    pub open spec fn names(&self) -> Seq<Seq<char>> {
        info_names(self.infos())
    }

    pub open spec fn wf(&self) -> bool {
        unique_names(self.names())
    }

    /// The registered info for `name`, if any.
    pub open spec fn lookup(&self, name: Seq<char>) -> Option<TypeInfo<B>> {
        if self.names().contains(name) {
            Some(self.infos()[choose|i: int| 0 <= i < self.names().len() && self.names()[i] == name])
        } else {
            None
        }
    }

    /// Create empty type registry
    pub fn new() -> (r: Self)
        ensures
            r.wf(),
            r.infos().len() == 0,
            forall|name: Seq<char>| #[trigger] r.lookup(name).is_none(),
    {
        let r = TypeRegistry { infos: Vec::new() };
        assert(r.names() =~= Seq::<Seq<char>>::empty());
        r
    }

    /// Position of the info named `name`.
    fn position(&self, name: &String) -> (r: Option<usize>)
        requires
            self.wf(),
        ensures
            match r {
                Some(i) => i < self.names().len() && self.names()[i as int] == name@,
                None => !self.names().contains(name@),
            },
    {
        let mut i: usize = 0;
        while i < self.infos.len()
            invariant
                i <= self.infos@.len(),
                forall|k: int| 0 <= k < i ==> self.names()[k] != name@,
            decreases self.infos@.len() - i,
        {
            if self.infos[i].name == *name {
                return Some(i);
            }
            i = i + 1;
        }
        None
    }

    /// Whether a type named `name` is registered.
    pub fn contains(&self, name: &str) -> (r: bool)
        requires
            self.wf(),
        ensures
            r == self.names().contains(name@),
    {
        let name = String::from_str(name);
        self.position(&name).is_some()
    }

    /// Adds a new registry entry; its name must not be registered yet.
    pub fn add_helper(&mut self, type_info: TypeInfo<B>)
        requires
            old(self).wf(),
            !old(self).names().contains(type_info.name@),
        ensures
            final(self).wf(),
            final(self).infos() == old(self).infos().push(type_info),
    {
        let ghost t = type_info;
        self.infos.push(type_info);
        assert(self.names() =~= old(self).names().push(t.name@));
        assert forall|i: int, j: int| 0 <= i < j < self.names().len() implies self.names()[i] != self.names()[j] by {
            if j == self.names().len() - 1 {
                assert(old(self).names().contains(old(self).names()[i]));
            }
        }
    }

    /// Adds a type under the name given for it, or else under its system type name
    /// `system_name`, with the builder of its transcoder. The name must not be
    /// registered yet: a type registered twice, or two types under one name, are
    /// refused.
    pub fn add(&mut self, name: Option<&str>, system_name: &str, comrec_builder: B)
        requires
            old(self).wf(),
            !old(self).names().contains(
                match name {
                    Some(n) => n@,
                    None => system_name@,
                },
            ),
        ensures
            final(self).wf(),
            final(self).names() == old(self).names().push(
                match name {
                    Some(n) => n@,
                    None => system_name@,
                },
            ),
            final(self).infos().last().comrec_builder == comrec_builder,
            final(self).infos().drop_last() == old(self).infos(),
    {
        let chosen = match name {
            Some(n) => String::from_str(n),
            None => String::from_str(system_name),
        };
        let info = TypeInfo { name: chosen, comrec_builder };
        self.add_helper(info);
        assert(self.infos().drop_last() =~= old(self).infos());
    }

    /// Import the given type registry into this registry; no name may be registered in both.
    pub fn import(&mut self, other: TypeRegistry<B>)
        requires
            old(self).wf(),
            other.wf(),
            forall|n: Seq<char>| old(self).names().contains(n) ==> !other.names().contains(n),
        ensures
            final(self).wf(),
            final(self).infos() == old(self).infos() + other.infos(),
    {
        let ghost o = other.infos@;
        let mut rest = other.infos;
        let n_other = rest.len();
        let mut taken: Vec<TypeInfo<B>> = Vec::new();
        // take the entries from the back, then add them in their order
        while rest.len() > 0
            invariant
                rest@ == o.take(rest@.len() as int),
                taken@.len() + rest@.len() == o.len(),
                forall|k: int| 0 <= k < taken@.len() ==> #[trigger] taken@[k] == o[o.len() - 1 - k],
            decreases rest.len(),
        {
            let ghost before = rest@;
            let t = rest.pop().unwrap();
            assert(before == rest@.push(t));
            assert(o.take(before.len() as int)[rest@.len() as int] == o[rest@.len() as int]);
            taken.push(t);
            assert(rest@ =~= o.take(rest@.len() as int));
        }
        let mut k: usize = 0;
        while taken.len() > 0
            invariant
                o.len() == n_other,
                k + taken@.len() == o.len(),
                forall|j: int| 0 <= j < taken@.len() ==> #[trigger] taken@[j] == o[o.len() - 1 - j],
                self.wf(),
                self.infos() == old(self).infos() + o.take(k as int),
                unique_names(info_names(o)),
                forall|n: Seq<char>| old(self).names().contains(n) ==> !info_names(o).contains(n),
            decreases taken.len(),
        {
            let t = taken.pop().unwrap();
            assert(t == o[k as int]);
            proof {
                assert(info_names(o)[k as int] == t.name@);
                if self.names().contains(t.name@) {
                    let i = choose|i: int| 0 <= i < self.names().len() && self.names()[i] == t.name@;
                    if i < old(self).names().len() {
                        assert(old(self).names()[i] == self.names()[i]);
                        assert(old(self).names().contains(t.name@));
                        assert(info_names(o).contains(t.name@));
                    } else {
                        let j = i - old(self).names().len();
                        assert(self.infos()[i] == o[j]);
                        assert(info_names(o)[j] == info_names(o)[k as int]);
                    }
                }
            }
            self.add_helper(t);
            assert(o.take(k + 1) =~= o.take(k as int).push(o[k as int]));
            k = k + 1;
        }
        assert(o.take(k as int) =~= o);
    }

    /// Retrieve the [`TypeInfo`] for the given type name, or None if not existent
    pub fn info_name(&self, name: &str) -> (r: Option<&TypeInfo<B>>)
        requires
            self.wf(),
        ensures
            match r {
                Some(t) => self.lookup(name@) == Some(*t),
                None => self.lookup(name@).is_none(),
            },
    {
        let name = String::from_str(name);
        match self.position(&name) {
            Some(i) => {
                proof {
                    let j = choose|j: int| 0 <= j < self.names().len() && self.names()[j] == name@;
                    if j != i {
                        assert(self.names()[j] == self.names()[i as int]);
                    }
                }
                Some(&self.infos[i])
            },
            None => None,
        }
    }
}

/// A registered type is found under its name, with the info it was registered with.
pub proof fn lemma_added_type_found<B>(r: TypeRegistry<B>, t: TypeInfo<B>, n: Seq<char>)
    requires
        r.wf(),
        !r.names().contains(t.name@),
    ensures
        ({
            let infos = r.infos().push(t);
            let names = info_names(infos);
            &&& names.contains(t.name@)
            &&& forall|i: int| 0 <= i < names.len() && names[i] == t.name@ ==> infos[i] == t
            &&& n != t.name@ ==> (names.contains(n) <==> r.names().contains(n))
        }),
{
    let infos = r.infos().push(t);
    let names = info_names(infos);
    assert(names =~= r.names().push(t.name@));
    assert(names[names.len() - 1] == t.name@);
    assert forall|i: int| 0 <= i < names.len() && names[i] == t.name@ implies infos[i] == t by {
        if i < names.len() - 1 {
            assert(r.names()[i] == t.name@);
        }
    }
    vstd::seq_lib::lemma_seq_contains_after_push(r.names(), t.name@, n);
}

/// The default registry is the empty one.
impl<B> Default for TypeRegistry<B> {
    fn default() -> (r: Self)
        ensures
            r.wf(),
            r.infos().len() == 0,
            forall|name: Seq<char>| #[trigger] r.lookup(name).is_none(),
    {
        TypeRegistry::new()
    }
}

} // verus!
