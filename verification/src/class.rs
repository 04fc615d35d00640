//! The metadata of native-backed classes, and the map that holds it for one
//! engine instance.

use vstd::prelude::*;
use std::collections::HashMap;
use crate::raw::CCallback;

verus! {

broadcast use vstd::std_specs::hash::group_hash_axioms;

/// One entry of a method table, as the contracts see it.
pub struct MethodModel {
    pub name: Seq<u8>,
    pub function: usize,
}

/// The metadata of a class, as the contracts see it.
pub struct ClassModel {
    pub name: Seq<u8>,
    pub allocate: CCallback,
    pub construct: CCallback,
    pub call: CCallback,
    pub drop: usize,
    pub methods: Seq<MethodModel>,
}

impl ClassModel {
    /// Whether the method table has an entry of this name.
    pub open spec fn has_method(self, name: Seq<u8>) -> bool {
        exists|i: int| 0 <= i < self.methods.len() && (#[trigger] self.methods[i]).name == name
    }

    /// Where in the method table the entry of this name stands.
    pub open spec fn method_index(self, name: Seq<u8>) -> int {
        choose|i: int| 0 <= i < self.methods.len() && (#[trigger] self.methods[i]).name == name
    }

    /// The engine's function behind the method of this name.
    pub open spec fn function_of(self, name: Seq<u8>) -> usize {
        self.methods[self.method_index(name)].function
    }

    /// No two entries of the method table have the same name, and the class's
    /// name and the methods' names are short enough for the engine to take.
    pub open spec fn wf(self) -> bool {
        &&& self.name.len() <= u32::MAX
        &&& forall|i: int|
            0 <= i < self.methods.len() ==> (#[trigger] self.methods[i]).name.len() <= u32::MAX
        &&& forall|i: int, j: int|
            0 <= i < j < self.methods.len() ==> (#[trigger] self.methods[i]).name != (
            #[trigger] self.methods[j]).name
    }
}

/// One entry of a method table: the method's name and the engine's function
/// behind it.
pub struct Method {
    name: Vec<u8>,
    function: usize,
}

impl View for Method {
    type V = MethodModel;

    closed spec fn view(&self) -> MethodModel {
        MethodModel { name: self.name@, function: self.function }
    }
}

/// The metadata of one class in one engine instance: its name, the three
/// kernels that allocate, construct and call an instance, the function that
/// the engine's collector calls when it reclaims an instance, and the method
/// table.
pub struct ClassMetadata {
    name: Vec<u8>,
    allocate: CCallback,
    construct: CCallback,
    call: CCallback,
    drop: usize,
    methods: Vec<Method>,
}

impl View for ClassMetadata {
    type V = ClassModel;

    closed spec fn view(&self) -> ClassModel {
        ClassModel {
            name: self.name@,
            allocate: self.allocate,
            construct: self.construct,
            call: self.call,
            drop: self.drop,
            methods: Seq::new(self.methods@.len(), |i: int| self.methods@[i]@),
        }
    }
}

/// Whether two byte strings are equal.
fn same_bytes(a: &Vec<u8>, b: &Vec<u8>) -> (same: bool)
    ensures
        same == (a@ == b@),
{
    if a.len() != b.len() {
        return false;
    }
    let mut i: usize = 0;
    while i < a.len()
        invariant
            a.len() == b.len(),
            i <= a.len(),
            forall|j: int| 0 <= j < i ==> a@[j] == b@[j],
        decreases a.len() - i,
    {
        if a[i] != b[i] {
            return false;
        }
        i = i + 1;
    }
    assert(a@ =~= b@);
    true
}

impl ClassMetadata {
    /// The invariant of class metadata.
    pub open spec fn wf(&self) -> bool {
        self@.wf()
    }

    /// Metadata with the given name, kernels and drop function, and an empty
    /// method table; `None` where the name is longer than the engine takes.
    pub fn new(
        name: Vec<u8>,
        allocate: CCallback,
        construct: CCallback,
        call: CCallback,
        drop: usize,
    ) -> (metadata: Option<ClassMetadata>)
        ensures
            metadata is Some <==> name@.len() <= u32::MAX,
            metadata matches Some(m) ==> m.wf() && m@ == (ClassModel {
                name: name@,
                allocate,
                construct,
                call,
                drop,
                methods: Seq::empty(),
            }),
    {
        if name.len() > u32::MAX as usize {
            return None;
        }
        let metadata = ClassMetadata { name, allocate, construct, call, drop, methods: Vec::new() };
        assert(metadata@.methods =~= Seq::empty());
        Some(metadata)
    }

    /// The class's name.
    pub fn name(&self) -> (name: &Vec<u8>)
        ensures
            name@ == self@.name,
    {
        &self.name
    }

    /// The kernel that makes the storage of an instance.
    pub fn allocate_kernel(&self) -> (kernel: CCallback)
        ensures
            kernel == self@.allocate,
    {
        self.allocate
    }

    /// The kernel that initialises an instance from the arguments of its
    /// constructor.
    pub fn construct_kernel(&self) -> (kernel: CCallback)
        ensures
            kernel == self@.construct,
    {
        self.construct
    }

    /// The kernel that runs when the class is called as a function.
    pub fn call_kernel(&self) -> (kernel: CCallback)
        ensures
            kernel == self@.call,
    {
        self.call
    }

    /// The function that the engine's collector calls with the storage of an
    /// instance that it reclaims.
    pub fn drop_function(&self) -> (drop: usize)
        ensures
            drop == self@.drop,
    {
        self.drop
    }

    /// How many methods the class has.
    pub fn method_count(&self) -> (count: usize)
        ensures
            count == self@.methods.len(),
    {
        self.methods.len()
    }

    /// Where in the method table the entry of this name stands.
    fn find_method(&self, name: &Vec<u8>) -> (at: Option<usize>)
        ensures
            at is Some <==> self@.has_method(name@),
            at matches Some(i) ==> i < self@.methods.len() && self@.methods[i as int].name
                == name@,
    {
        let mut i: usize = 0;
        while i < self.methods.len()
            invariant
                i <= self.methods.len(),
                self@.methods.len() == self.methods@.len(),
                forall|j: int| 0 <= j < i ==> (#[trigger] self@.methods[j]).name != name@,
            decreases self.methods.len() - i,
        {
            assert(self@.methods[i as int] == self.methods@[i as int]@);
            if same_bytes(&self.methods[i].name, name) {
                return Some(i);
            }
            i = i + 1;
        }
        None
    }

    /// Where in the method table the method of this name stands, if the
    /// class has such a method.
    pub fn method_index(&self, name: &Vec<u8>) -> (at: Option<usize>)
        requires
            self.wf(),
        ensures
            at is Some <==> self@.has_method(name@),
            at matches Some(i) ==> i == self@.method_index(name@) && i < self@.methods.len(),
    {
        self.find_method(name)
    }

    /// The engine's function behind the method of this name, if the class
    /// has such a method.
    pub fn method(&self, name: &Vec<u8>) -> (function: Option<usize>)
        requires
            self.wf(),
        ensures
            function is Some <==> self@.has_method(name@),
            function matches Some(f) ==> f == self@.function_of(name@),
    {
        match self.find_method(name) {
            None => None,
            Some(i) => {
                assert(self@.methods[i as int] == self.methods@[i as int]@);
                Some(self.methods[i].function)
            },
        }
    }

    /// Adds a method to the table. Refused, with `false` and nothing
    /// changed, where the class has a method of that name or the name is
    /// longer than the engine takes.
    pub fn add_method(&mut self, name: Vec<u8>, function: usize) -> (added: bool)
        requires
            old(self).wf(),
        ensures
            final(self).wf(),
            added <==> !old(self)@.has_method(name@) && name@.len() <= u32::MAX,
            !added ==> final(self)@ == old(self)@,
            added ==> final(self)@ == (ClassModel {
                methods: old(self)@.methods.push(MethodModel { name: name@, function }),
                ..old(self)@
            }),
    {
        if name.len() > u32::MAX as usize {
            return false;
        }
        if self.find_method(&name).is_some() {
            return false;
        }
        let ghost before = self@;
        let ghost entry = MethodModel { name: name@, function };
        self.methods.push(Method { name, function });
        proof {
            assert(self@.methods =~= before.methods.push(entry));
            assert forall|i: int, j: int| 0 <= i < j < self@.methods.len() implies (
            #[trigger] self@.methods[i]).name != (#[trigger] self@.methods[j]).name by {
                assert(self@.methods[i] == before.methods[i]);
                if j < before.methods.len() {
                    assert(self@.methods[j] == before.methods[j]);
                }
            }
        }
        true
    }
}

/// The class map of an engine instance, as the contracts see it: from the
/// identity of a class to its metadata.
pub open spec fn registered(classes: Map<u64, ClassModel>, id: u64, metadata: ClassModel) -> Map<
    u64,
    ClassModel,
> {
    if classes.contains_key(id) {
        classes
    } else {
        classes.insert(id, metadata)
    }
}

/// Registering a class a second time changes nothing: the map is as the first
/// registration left it, and the class's metadata is what was there before
/// the second.
pub proof fn law_registration_is_idempotent(
    classes: Map<u64, ClassModel>,
    id: u64,
    first: ClassModel,
    second: ClassModel,
)
    ensures
        registered(registered(classes, id, first), id, second) == registered(classes, id, first),
        registered(classes, id, first).contains_key(id),
        registered(registered(classes, id, first), id, second)[id] == registered(
            classes,
            id,
            first,
        )[id],
        !classes.contains_key(id) ==> registered(registered(classes, id, first), id, second)[id]
            == first,
        registered(registered(classes, id, first), id, second).dom() == classes.dom().insert(id),
{
    assert(registered(classes, id, first).dom() =~= classes.dom().insert(id));
}

/// The metadata of the classes of one engine instance, by the identity of the
/// class.
pub struct ClassMap {
    entries: HashMap<u64, ClassMetadata>,
}

impl View for ClassMap {
    type V = Map<u64, ClassModel>;

    closed spec fn view(&self) -> Map<u64, ClassModel> {
        self.entries@.map_values(|m: ClassMetadata| m@)
    }
}

impl ClassMap {
    /// Every class of the map has well-formed metadata.
    pub open spec fn wf(&self) -> bool {
        forall|id: u64| #[trigger] self@.contains_key(id) ==> self@[id].wf()
    }

    /// A map without classes.
    pub fn new() -> (map: ClassMap)
        ensures
            map.wf(),
            map@ == Map::<u64, ClassModel>::empty(),
    {
        let map = ClassMap { entries: HashMap::new() };
        assert(map@ =~= Map::<u64, ClassModel>::empty());
        map
    }

    /// How many classes the map holds.
    pub fn len(&self) -> (count: usize)
        ensures
            count == self@.len(),
    {
        proof {
            assert(self@.dom() =~= self.entries@.dom());
        }
        self.entries.len()
    }

    /// Whether the class is registered.
    pub fn contains(&self, id: u64) -> (held: bool)
        ensures
            held == self@.contains_key(id),
    {
        self.entries.contains_key(&id)
    }

    /// The metadata of a class, if the class is registered.
    pub fn get(&self, id: u64) -> (metadata: Option<&ClassMetadata>)
        ensures
            metadata is Some <==> self@.contains_key(id),
            metadata matches Some(m) ==> m@ == self@[id],
    {
        self.entries.get(&id)
    }

    /// Registers a class. Where the class is registered already, nothing
    /// changes and `false` is returned: the metadata that is there is the
    /// class's. Else the metadata is installed and `true` is returned.
    pub fn register(&mut self, id: u64, metadata: ClassMetadata) -> (installed: bool)
        requires
            old(self).wf(),
            metadata.wf(),
        ensures
            final(self).wf(),
            installed == !old(self)@.contains_key(id),
            final(self)@ == registered(old(self)@, id, metadata@),
    {
        if self.entries.contains_key(&id) {
            return false;
        }
        self.entries.insert(id, metadata);
        assert(self@ =~= old(self)@.insert(id, metadata@));
        true
    }
}

} // verus!
