//! Probe descriptors and the descriptor set.

use vstd::prelude::*;

verus! {

/// How a platform's response is to be read.
#[derive(Clone, Copy, PartialEq, Eq, Debug, Structural)]
pub enum Classification {
    /// A success status of the probe URL means that the account exists.
    StatusCode,
    /// Any other rule; such a platform is never probed.
    Unsupported,
}

/// The tag that selects [`Classification::StatusCode`].
pub open spec fn status_code_tag() -> Seq<char> {
    "status_code"@
}

impl Classification {
    /// Reads a descriptor's classification tag. Only the tag `status_code`
    /// is supported; a missing tag or any other value is not.
    pub fn from_tag(tag: &Option<String>) -> (c: Classification)
        ensures
            c == Classification::StatusCode <==> (tag matches Some(t) && t@ == status_code_tag()),
    {
        match tag {
            Some(t) => {
                let supported = "status_code".to_owned();
                if *t == supported {
                    Classification::StatusCode
                } else {
                    Classification::Unsupported
                }
            },
            None => Classification::Unsupported,
        }
    }
}

/// One platform: its name, its URL template and its classification rule.
#[derive(Debug)]
pub struct Descriptor {
    /// The platform's name, unique within a descriptor set.
    pub name: String,
    /// The probe URL, with `{}` in the place of the username.
    pub url_template: String,
    /// The rule by which a response is read.
    pub classification: Classification,
}

impl Descriptor {
    /// Whether this platform takes part in a run.
    pub open spec fn is_active(&self) -> bool {
        self.classification == Classification::StatusCode
    }

    /// Whether this platform takes part in a run.
    pub fn active(&self) -> (b: bool)
        ensures
            b == self.is_active(),
    {
        self.classification == Classification::StatusCode
    }
}

/// The active set: the positions of the descriptors of `ds` that take part
/// in a run, in ascending order.
pub open spec fn active_indices(ds: Seq<Descriptor>) -> Seq<int>
    decreases ds.len(),
{
    if ds.len() == 0 {
        Seq::empty()
    } else if ds.last().is_active() {
        active_indices(ds.drop_last()).push(ds.len() - 1)
    } else {
        active_indices(ds.drop_last())
    }
}

/// The active set holds every descriptor classified by status code, once
/// and in the order of the set, and no descriptor of any other
/// classification.
pub proof fn lemma_active_indices(ds: Seq<Descriptor>)
    ensures
        forall|k: int|
            0 <= k < active_indices(ds).len() ==> 0 <= #[trigger] active_indices(ds)[k] < ds.len()
                && ds[active_indices(ds)[k]].is_active(),
        forall|i: int, j: int|
            0 <= i < j < active_indices(ds).len() ==> active_indices(ds)[i] < active_indices(
                ds,
            )[j],
        forall|j: int|
            0 <= j < ds.len() ==> ((#[trigger] ds[j]).is_active() <==> active_indices(ds).contains(
                j,
            )),
        forall|j: int|
            0 <= j < ds.len() && !(#[trigger] ds[j]).is_active() ==> !active_indices(ds).contains(
                j,
            ),
    decreases ds.len(),
{
    if ds.len() > 0 {
        let init = ds.drop_last();
        let last = ds.len() - 1;
        lemma_active_indices(init);
        let before = active_indices(init);
        let now = active_indices(ds);
        assert forall|j: int| 0 <= j < ds.len() implies ((#[trigger] ds[j]).is_active()
            <==> now.contains(j)) by {
            if j < last {
                assert(init[j] == ds[j]);
                if ds[j].is_active() {
                    let k = choose|k: int| 0 <= k < before.len() && before[k] == j;
                    assert(now[k] == j);
                }
                if now.contains(j) {
                    let k = choose|k: int| 0 <= k < now.len() && now[k] == j;
                    assert(before[k] == j);
                }
            } else {
                if ds[j].is_active() {
                    assert(now[before.len() as int] == j);
                }
                if now.contains(j) {
                    let k = choose|k: int| 0 <= k < now.len() && now[k] == j;
                    if k < before.len() {
                        assert(before[k] < init.len());
                    }
                }
            }
        }
        assert forall|k: int| 0 <= k < now.len() implies 0 <= #[trigger] now[k] < ds.len()
            && ds[now[k]].is_active() by {
            if k < before.len() {
                assert(init[before[k]] == ds[before[k]]);
            }
        }
    }
}

/// Whether no two descriptors of `ds` share a name.
pub open spec fn names_unique(ds: Seq<Descriptor>) -> bool {
    forall|i: int, j: int| 0 <= i < j < ds.len() ==> ds[i].name@ != ds[j].name@
}

/// Whether no descriptor of `ds` is called `name`.
pub open spec fn name_absent(ds: Seq<Descriptor>, name: Seq<char>) -> bool {
    forall|i: int| 0 <= i < ds.len() ==> (#[trigger] ds[i]).name@ != name
}

/// The descriptors of one run, keyed by name: no name occurs twice. The
/// descriptors keep the order in which their names first came in.
pub struct DescriptorSet {
    items: Vec<Descriptor>,
}

impl View for DescriptorSet {
    type V = Seq<Descriptor>;

    closed spec fn view(&self) -> Seq<Descriptor> {
        self.items@
    }
}

impl DescriptorSet {
    /// Every set that exists is well formed: its names are pairwise distinct.
    #[verifier::type_invariant]
    pub closed spec fn well_formed(&self) -> bool {
        names_unique(self.items@)
    }

    /// The names of a well-formed set are pairwise distinct.
    pub proof fn lemma_names_unique(&self)
        requires
            self.well_formed(),
        ensures
            names_unique(self@),
    {
    }

    /// The empty set.
    pub fn new() -> (set: DescriptorSet)
        ensures
            set@ == Seq::<Descriptor>::empty(),
    {
        DescriptorSet { items: Vec::new() }
    }

    /// The number of descriptors.
    pub fn len(&self) -> (n: usize)
        ensures
            n == self@.len(),
    {
        self.items.len()
    }

    /// The descriptors, in order.
    pub fn descriptors(&self) -> (items: &Vec<Descriptor>)
        ensures
            items@ == self@,
            names_unique(items@),
    {
        proof {
            use_type_invariant(self);
        }
        &self.items
    }

    /// Where the descriptor called `name` stands, if there is one.
    pub fn position(&self, name: &String) -> (found: Option<usize>)
        ensures
            match found {
                Some(i) => i < self@.len() && self@[i as int].name@ == name@,
                None => name_absent(self@, name@),
            },
    {
        let mut i: usize = 0;
        while i < self.items.len()
            invariant
                i <= self.items.len(),
                forall|k: int| 0 <= k < i ==> (#[trigger] self.items@[k]).name@ != name@,
            decreases self.items.len() - i,
        {
            if self.items[i].name == *name {
                return Some(i);
            }
            i = i + 1;
        }
        None
    }

    /// Adds a descriptor under its name. A descriptor already held under
    /// that name gives up its place to the new one and is handed back.
    pub fn insert(&mut self, descriptor: Descriptor) -> (replaced: Option<Descriptor>)
        ensures
            name_absent(old(self)@, descriptor.name@) ==> replaced is None && final(self)@ == old(
                self,
            )@.push(descriptor),
            forall|i: int|
                0 <= i < old(self)@.len() && (#[trigger] old(self)@[i]).name@ == descriptor.name@
                    ==> replaced == Some(old(self)@[i]) && final(self)@ == old(self)@.update(
                    i,
                    descriptor,
                ),
    {
        proof {
            use_type_invariant(&*self);
        }
        let found = self.position(&descriptor.name);
        let mut taken = DescriptorSet::new();
        std::mem::swap(self, &mut taken);
        let DescriptorSet { items } = taken;
        let mut items = items;
        let ghost before = items@;
        let replaced = match found {
            Some(i) => {
                items.push(descriptor);
                let previous = items.swap_remove(i);
                assert(items@ =~= before.update(i as int, descriptor));
                Some(previous)
            },
            None => {
                items.push(descriptor);
                None
            },
        };
        *self = DescriptorSet { items };
        replaced
    }
}

} // verus!
