//! Registry for externally-provided custom backends.
//!
//! A benchmark process runs a single benchmark, so it keeps one registry: the backends that were
//! registered by name, and the one that is selected for the current run.
use std::sync::Arc;
use vstd::prelude::*;
use crate::text::{
    TextOrder, law_order_is_total, law_order_is_transitive, text_before, text_order, texts_view,
};

verus! {

/// Name -> backend, in the order of names, and the backend selected for the current run.
pub struct Registry<B: ?Sized> {
    entries: Vec<(String, Arc<B>)>,
    active: Option<Arc<B>>,
}

/// Some entry has the name `name`.
spec fn has_name<B: ?Sized>(entries: Seq<(String, Arc<B>)>, name: Seq<char>) -> bool {
    exists|i: int| 0 <= i < entries.len() && (#[trigger] entries[i]).0@ == name
}

/// The place of the entry with the name `name`.
spec fn place_of<B: ?Sized>(entries: Seq<(String, Arc<B>)>, name: Seq<char>) -> int {
    choose|i: int| 0 <= i < entries.len() && (#[trigger] entries[i]).0@ == name
}

/// The names are in order, and none occurs twice.
spec fn ordered<B: ?Sized>(entries: Seq<(String, Arc<B>)>) -> bool {
    forall|i: int, j: int|
        0 <= i < j < entries.len() ==> text_before(
            (#[trigger] entries[i]).0@,
            (#[trigger] entries[j]).0@,
        )
}

/// The map that the entries stand for.
spec fn entries_map<B: ?Sized>(entries: Seq<(String, Arc<B>)>) -> Map<Seq<char>, Arc<B>> {
    Map::new(
        |name: Seq<char>| has_name(entries, name),
        |name: Seq<char>| entries[place_of(entries, name)].1,
    )
}

impl<B: ?Sized> Registry<B> {
    /// The names are in order, and none occurs twice.
    #[verifier::type_invariant]
    spec fn wf(&self) -> bool {
        ordered(self.entries@)
    }

    /// The registered backends by name.
    pub closed spec fn backends(&self) -> Map<Seq<char>, Arc<B>> {
        entries_map(self.entries@)
    }

    /// The backend selected for the current run.
    pub closed spec fn active(&self) -> Option<Arc<B>> {
        self.active
    }
}

/// In ordered entries a name has one place.
proof fn lemma_place<B: ?Sized>(entries: Seq<(String, Arc<B>)>, i: int)
    requires
        ordered(entries),
        0 <= i < entries.len(),
    ensures
        has_name(entries, entries[i].0@),
        place_of(entries, entries[i].0@) == i,
{
    let p = place_of(entries, entries[i].0@);
    law_order_is_total(entries[i].0@, entries[i].0@);
    if p < i {
        assert(text_before(entries[p].0@, entries[i].0@));
    } else if i < p {
        assert(text_before(entries[i].0@, entries[p].0@));
    }
}

/// Where `name` stands in ordered entries, or where it would stand, and whether it is there.
fn find<B: ?Sized>(entries: &Vec<(String, Arc<B>)>, name: &str) -> (found: (usize, bool))
    requires
        ordered(entries@),
    ensures
        found.0 <= entries@.len(),
        forall|i: int| 0 <= i < found.0 ==> text_before((#[trigger] entries@[i]).0@, name@),
        found.1 ==> found.0 < entries@.len() && entries@[found.0 as int].0@ == name@,
        !found.1 ==> !has_name(entries@, name@) && forall|i: int|
            found.0 <= i < entries@.len() ==> text_before(name@, (#[trigger] entries@[i]).0@),
{
    let mut i: usize = 0;
    while i < entries.len()
        invariant
            i <= entries@.len(),
            ordered(entries@),
            forall|j: int| 0 <= j < i ==> text_before((#[trigger] entries@[j]).0@, name@),
        decreases entries@.len() - i,
    {
        match text_order(entries[i].0.as_str(), name) {
            TextOrder::Before => {
                i = i + 1;
            },
            TextOrder::Same => {
                return (i, true);
            },
            TextOrder::After => {
                proof {
                    law_order_is_total(entries@[i as int].0@, name@);
                    assert forall|j: int| i <= j < entries@.len() implies text_before(
                        name@,
                        (#[trigger] entries@[j]).0@,
                    ) by {
                        if i < j {
                            law_order_is_transitive(
                                name@,
                                entries@[i as int].0@,
                                entries@[j].0@,
                            );
                        }
                    }
                    lemma_absent(entries@, name@, i as int);
                }
                return (i, false);
            },
        }
    }
    proof {
        lemma_absent(entries@, name@, i as int);
    }
    (i, false)
}

/// A name between two neighbours is not there.
proof fn lemma_absent<B: ?Sized>(entries: Seq<(String, Arc<B>)>, name: Seq<char>, at: int)
    requires
        0 <= at <= entries.len(),
        forall|i: int| 0 <= i < at ==> text_before((#[trigger] entries[i]).0@, name),
        forall|i: int| at <= i < entries.len() ==> text_before(name, (#[trigger] entries[i]).0@),
    ensures
        !has_name(entries, name),
{
    law_order_is_total(name, name);
    assert forall|i: int| 0 <= i < entries.len() implies (#[trigger] entries[i]).0@ != name by {
        if i < at {
            assert(text_before(entries[i].0@, name));
        } else {
            assert(text_before(name, entries[i].0@));
        }
    }
}

/// An empty registry, with no backend selected.
pub fn registry<B: ?Sized>() -> (registry: Registry<B>)
    ensures
        registry.backends() == Map::<Seq<char>, Arc<B>>::empty(),
        registry.active() == None::<Arc<B>>,
{
    let registry: Registry<B> = Registry { entries: Vec::new(), active: None };
    assert(registry.backends() =~= Map::<Seq<char>, Arc<B>>::empty());
    registry
}

/// Register a custom backend under `name`, selectable via `--backend <name>`.
///
/// Re-registering the same name overwrites the previous entry.
pub fn register_backend<B: ?Sized>(registry: &mut Registry<B>, name: &str, backend: Arc<B>)
    ensures
        final(registry).backends() == old(registry).backends().insert(name@, backend),
        final(registry).active() == old(registry).active(),
{
    proof {
        use_type_invariant(&*registry);
    }
    let ghost before = registry.entries@;
    let (at, there) = find(&registry.entries, name);
    let entry: (String, Arc<B>) = (name.to_string(), backend);
    let mut entries: Vec<(String, Arc<B>)> = Vec::new();
    std::mem::swap(&mut entries, &mut registry.entries);
    if there {
        entries[at] = entry;
    } else {
        entries.insert(at, entry);
    }
    proof {
        let after = entries@;
        if there {
            assert(ordered(after));
        } else {
            assert forall|i: int, j: int| 0 <= i < j < after.len() implies text_before(
                (#[trigger] after[i]).0@,
                (#[trigger] after[j]).0@,
            ) by {
                if i < at && j > at {
                    assert(text_before(before[i].0@, before[j - 1].0@));
                } else if i > at {
                    assert(text_before(before[i - 1].0@, before[j - 1].0@));
                } else if i < at && j < at {
                    assert(text_before(before[i].0@, before[j].0@));
                } else if i == at {
                    assert(text_before(name@, before[j - 1].0@));
                }
            }
        }
        lemma_place(after, at as int);
        assert forall|other: Seq<char>| #[trigger] has_name(after, other) == (has_name(
            before,
            other,
        ) || other == name@) by {
            if has_name(before, other) && other != name@ {
                let p = place_of(before, other);
                if there || p < at {
                    assert(after[p].0@ == other);
                } else {
                    assert(after[p + 1].0@ == other);
                }
            }
            if has_name(after, other) && other != name@ {
                let p = place_of(after, other);
                if there || p < at {
                    assert(before[p].0@ == other);
                } else {
                    assert(before[p - 1].0@ == other);
                }
            }
        }
        assert forall|other: Seq<char>| has_name(before, other) && other
            != name@ implies #[trigger] entries_map(after)[other] == entries_map(
            before,
        )[other] by {
            let p = place_of(before, other);
            if there || p < at {
                lemma_place(after, p);
            } else {
                lemma_place(after, p + 1);
            }
        }
        assert(entries_map(after) =~= entries_map(before).insert(name@, backend));
    }
    registry.entries = entries;
}

/// The backend registered under `name`, if there is one.
pub open spec fn found<B: ?Sized>(
    backends: Map<Seq<char>, Arc<B>>,
    name: Seq<char>,
) -> Option<Arc<B>> {
    if backends.dom().contains(name) {
        Some(backends[name])
    } else {
        None
    }
}

/// Look up a registered backend by name.
pub fn lookup<B: ?Sized>(registry: &Registry<B>, name: &str) -> (backend: Option<Arc<B>>)
    ensures
        backend == found(registry.backends(), name@),
{
    proof {
        use_type_invariant(registry);
    }
    let (at, there) = find(&registry.entries, name);
    if there {
        proof {
            lemma_place(registry.entries@, at as int);
        }
        Some(registry.entries[at].1.clone())
    } else {
        None
    }
}

/// `names` lists what `backends` registers, in order and without repetition.
pub open spec fn lists_names<B: ?Sized>(
    names: Seq<Seq<char>>,
    backends: Map<Seq<char>, Arc<B>>,
) -> bool {
    &&& forall|i: int, j: int|
        0 <= i < j < names.len() ==> text_before(#[trigger] names[i], #[trigger] names[j])
    &&& forall|name: Seq<char>| #[trigger]
        names.contains(name) <==> backends.dom().contains(name)
}

/// Sorted list of registered custom backend names (for error messages / help).
pub fn registered_backend_names<B: ?Sized>(registry: &Registry<B>) -> (names: Vec<String>)
    ensures
        lists_names(texts_view(names@), registry.backends()),
{
    proof {
        use_type_invariant(registry);
    }
    let mut names: Vec<String> = Vec::new();
    let mut i: usize = 0;
    while i < registry.entries.len()
        invariant
            i <= registry.entries@.len(),
            names@.len() == i,
            forall|j: int|
                0 <= j < i ==> (#[trigger] names@[j])@ == registry.entries@[j].0@,
        decreases registry.entries@.len() - i,
    {
        names.push(registry.entries[i].0.clone());
        i = i + 1;
    }
    proof {
        let texts = texts_view(names@);
        let entries = registry.entries@;
        assert forall|name: Seq<char>| #[trigger]
            texts.contains(name) <==> registry.backends().dom().contains(name) by {
            if texts.contains(name) {
                let k = choose|k: int| 0 <= k < texts.len() && texts[k] == name;
                assert(entries[k].0@ == name);
            }
            if has_name(entries, name) {
                let p = place_of(entries, name);
                assert(texts[p] == name);
            }
        }
    }
    names
}

/// Mark `backend` as the active selection for this run, replacing any previous one.
pub fn set_active<B: ?Sized>(registry: &mut Registry<B>, backend: Arc<B>)
    ensures
        final(registry).active() == Some(backend),
        final(registry).backends() == old(registry).backends(),
{
    proof {
        use_type_invariant(&*registry);
    }
    registry.active = Some(backend);
}

/// The active custom backend, if `--backend` resolved to one.
pub fn active_custom<B: ?Sized>(registry: &Registry<B>) -> (backend: Option<Arc<B>>)
    ensures
        backend == registry.active(),
{
    match &registry.active {
        Some(backend) => Some(backend.clone()),
        None => None,
    }
}

/// What is registered under a name is what is found there; other names are not touched.
pub proof fn law_lookup_after_register<B: ?Sized>(
    backends: Map<Seq<char>, Arc<B>>,
    name: Seq<char>,
    backend: Arc<B>,
    other: Seq<char>,
)
    ensures
        found(backends.insert(name, backend), other) == (if other == name {
            Some(backend)
        } else {
            found(backends, other)
        }),
{
}

/// Registering a name again leaves nothing of its earlier backend.
pub proof fn law_register_overwrites<B: ?Sized>(
    backends: Map<Seq<char>, Arc<B>>,
    name: Seq<char>,
    first: Arc<B>,
    second: Arc<B>,
)
    ensures
        backends.insert(name, first).insert(name, second) == backends.insert(name, second),
{
    assert(backends.insert(name, first).insert(name, second) =~= backends.insert(name, second));
}

/// The order in which two names are registered does not matter.
pub proof fn law_registration_order_is_irrelevant<B: ?Sized>(
    backends: Map<Seq<char>, Arc<B>>,
    name: Seq<char>,
    backend: Arc<B>,
    other: Seq<char>,
    other_backend: Arc<B>,
)
    requires
        name != other,
    ensures
        backends.insert(name, backend).insert(other, other_backend) == backends.insert(
            other,
            other_backend,
        ).insert(name, backend),
{
    assert(backends.insert(name, backend).insert(other, other_backend) =~= backends.insert(
        other,
        other_backend,
    ).insert(name, backend));
}

/// The list of names is determined by what is registered.
pub proof fn law_names_are_determined<B: ?Sized>(
    a: Seq<Seq<char>>,
    b: Seq<Seq<char>>,
    backends: Map<Seq<char>, Arc<B>>,
)
    requires
        lists_names(a, backends),
        lists_names(b, backends),
    ensures
        a == b,
{
    lemma_same_lists(a, b);
}

/// Ordered lists with the same members are equal.
proof fn lemma_same_lists(a: Seq<Seq<char>>, b: Seq<Seq<char>>)
    requires
        forall|i: int, j: int|
            0 <= i < j < a.len() ==> text_before(#[trigger] a[i], #[trigger] a[j]),
        forall|i: int, j: int|
            0 <= i < j < b.len() ==> text_before(#[trigger] b[i], #[trigger] b[j]),
        forall|name: Seq<char>| #[trigger] a.contains(name) <==> #[trigger] b.contains(name),
    ensures
        a == b,
    decreases a.len(),
{
    if a.len() == 0 {
        if b.len() > 0 {
            assert(b.contains(b[0]));
            assert(a.contains(b[0]));
        }
        assert(a =~= b);
    } else {
        assert(a.contains(a[0]));
        assert(b.contains(a[0]));
        let p = choose|p: int| 0 <= p < b.len() && b[p] == a[0];
        assert(b.contains(b[0]));
        assert(a.contains(b[0]));
        let q = choose|q: int| 0 <= q < a.len() && a[q] == b[0];
        law_order_is_total(a[0], b[0]);
        assert(a[0] == b[0]);
        let rest_a = a.drop_first();
        let rest_b = b.drop_first();
        assert forall|name: Seq<char>| #[trigger] rest_a.contains(name) <==> #[trigger]
            rest_b.contains(name) by {
            law_order_is_total(name, name);
            if rest_a.contains(name) {
                let k = choose|k: int| 0 <= k < rest_a.len() && rest_a[k] == name;
                assert(a[k + 1] == name && a.contains(name) && b.contains(name));
                let m = choose|m: int| 0 <= m < b.len() && b[m] == name;
                assert(text_before(a[0], a[k + 1]));
                assert(m != 0);
                assert(rest_b[m - 1] == name);
            }
            if rest_b.contains(name) {
                let k = choose|k: int| 0 <= k < rest_b.len() && rest_b[k] == name;
                assert(b[k + 1] == name && b.contains(name) && a.contains(name));
                let m = choose|m: int| 0 <= m < a.len() && a[m] == name;
                assert(text_before(b[0], b[k + 1]));
                assert(m != 0);
                assert(rest_a[m - 1] == name);
            }
        }
        lemma_same_lists(rest_a, rest_b);
        assert(a =~= seq![a[0]] + rest_a);
        assert(b =~= seq![b[0]] + rest_b);
    }
}

/// What lists the names lists all of them and no others, each after those that come before it.
pub proof fn law_name_lists_are_complete_and_sorted<B: ?Sized>(
    names: Seq<Seq<char>>,
    backends: Map<Seq<char>, Arc<B>>,
    name: Seq<char>,
    i: int,
    j: int,
)
    requires
        lists_names(names, backends),
    ensures
        names.contains(name) <==> backends.dom().contains(name),
        0 <= i < j < names.len() ==> text_before(names[i], names[j]),
        names.no_duplicates(),
{
    assert forall|a: int, b: int| 0 <= a < names.len() && 0 <= b < names.len() && a
        != b implies names[a] != names[b] by {
        if a < b {
            law_order_is_total(names[a], names[b]);
            assert(text_before(names[a], names[b]));
        } else {
            law_order_is_total(names[b], names[a]);
            assert(text_before(names[b], names[a]));
        }
    }
}

/// Nothing is found where nothing is registered.
pub proof fn law_nothing_is_found_unregistered<B: ?Sized>(
    backends: Map<Seq<char>, Arc<B>>,
    name: Seq<char>,
)
    ensures
        found(backends, name) is Some <==> backends.dom().contains(name),
{
}

} // verus!
