//! Column-family reconciliation: given what physically exists in an engine
//! directory and what a caller's descriptor asks for, plan which families to
//! open, drop and create so that afterwards exactly the requested families
//! exist — except that the default family is never dropped. Present and
//! requested families are compared as sets throughout, so a mere reordering
//! causes no drop/create churn.

use vstd::prelude::*;

verus! {

/// One descriptor entry: a column-family name with the engine options it is
/// opened or created with. The options blob is opaque to this library and
/// passed through to the engine untouched.
pub struct CFOptions<O> {
    pub cf: String,
    pub options: O,
}

impl<O> CFOptions<O> {
    pub fn new(cf: &str, options: O) -> (r: CFOptions<O>)
        ensures
            r.cf@ == cf@,
            r.options == options,
    {
        CFOptions { cf: cf.to_owned(), options }
    }
}

/// The name of the engine's default column family: always physically present
/// in an existing engine, and never dropped by reconciliation.
pub open spec fn default_cf_name() -> Seq<char> {
    "default"@
}

/// The default column-family name as an owned string.
pub fn default_cf() -> (r: String)
    ensures
        r@ == default_cf_name(),
{
    "default".to_owned()
}

/// Where the options for one family to open come from: a descriptor entry, or
/// a fresh default options value for a present family the descriptor no
/// longer mentions (it may still be opened momentarily before being dropped).
#[derive(Clone, Copy, Debug, PartialEq, Eq, Structural)]
pub enum OptionsSource {
    Descriptor(usize),
    Fresh,
}

/// One family the engine is to be opened with.
pub struct OpenEntry {
    pub name: String,
    pub source: OptionsSource,
}

/// One family to create after opening, with its descriptor entry.
pub struct CreateEntry {
    pub name: String,
    pub index: usize,
}

/// The reconciliation plan: how to open the engine, then which families to
/// drop and which to create, in that order.
pub struct ReconcilePlan {
    /// Whether the engine itself must be created on open.
    pub create_engine: bool,
    /// The families to supply to the open call, with their options sources.
    pub opens: Vec<OpenEntry>,
    /// The families to drop after opening; never holds the default family.
    pub drops: Vec<String>,
    /// The families to create after dropping, in descriptor order.
    pub creates: Vec<CreateEntry>,
}

/// The names of a descriptor's entries, in order.
pub open spec fn desc_names<O>(d: Seq<CFOptions<O>>) -> Seq<Seq<char>> {
    Seq::new(d.len(), |i: int| d[i].cf@)
}

pub open spec fn names_of_opens(s: Seq<OpenEntry>) -> Seq<Seq<char>> {
    Seq::new(s.len(), |i: int| s[i].name@)
}

pub open spec fn names_of_creates(s: Seq<CreateEntry>) -> Seq<Seq<char>> {
    Seq::new(s.len(), |i: int| s[i].name@)
}

/// The set of names a name list holds.
pub open spec fn name_set(s: Seq<Seq<char>>) -> Set<Seq<char>> {
    Set::new(|x: Seq<char>| s.contains(x))
}

/// The families a reconciliation of an existing engine drops: exactly those
/// present but no longer wanted, the default family excepted, in present
/// order.
pub open spec fn dropped_names(present: Seq<Seq<char>>, wanted: Seq<Seq<char>>) -> Seq<Seq<char>> {
    present.filter(|x: Seq<char>| !wanted.contains(x) && x != default_cf_name())
}

/// The families a reconciliation of an existing engine creates: exactly those
/// wanted but not present, in descriptor order.
pub open spec fn created_names(wanted: Seq<Seq<char>>, present: Seq<Seq<char>>) -> Seq<Seq<char>> {
    wanted.filter(|x: Seq<char>| !present.contains(x))
}

/// The families a bootstrap creates after opening: every wanted family but
/// the default one, in descriptor order.
pub open spec fn bootstrap_created_names(wanted: Seq<Seq<char>>) -> Seq<Seq<char>> {
    wanted.filter(|x: Seq<char>| x != default_cf_name())
}

/// The column families present after a plan runs against an engine whose
/// directory held `existing`: opening a fresh engine yields the supplied
/// families plus the default one, opening an existing engine leaves its set
/// untouched; then the drops are removed and the creates added.
pub open spec fn cf_set_after(p: ReconcilePlan, existing: Seq<Seq<char>>) -> Set<Seq<char>> {
    let base = if p.create_engine {
        name_set(names_of_opens(p.opens@)).insert(default_cf_name())
    } else {
        name_set(existing)
    };
    base.difference(name_set(p.drops.deep_view())).union(name_set(names_of_creates(p.creates@)))
}

/// The family set reconciliation is meant to reach: everything the descriptor
/// wants, plus the default family, which survives whether or not it is wanted.
pub open spec fn reconcile_target(
    exists: bool,
    present: Set<Seq<char>>,
    wanted: Set<Seq<char>>,
) -> Set<Seq<char>> {
    if exists {
        wanted.union(present.intersect(set![default_cf_name()]))
    } else {
        wanted.insert(default_cf_name())
    }
}

/// One reconciliation, however its descriptor reads, leaves the default
/// family present (a fresh engine is born with it; an existing engine keeps
/// it because it is never dropped).
pub proof fn lemma_target_keeps_default(exists: bool, present: Set<Seq<char>>, wanted: Set<Seq<char>>)
    requires
        exists ==> present.contains(default_cf_name()),
    ensures
        reconcile_target(exists, present, wanted).contains(default_cf_name()),
{
}

/// The family sets reached by running one reconciliation per descriptor, in
/// order, against an already-existing engine.
pub open spec fn reconcile_all(present: Set<Seq<char>>, wants: Seq<Set<Seq<char>>>) -> Set<
    Seq<char>,
>
    decreases wants.len(),
{
    if wants.len() == 0 {
        present
    } else {
        reconcile_all(reconcile_target(true, present, wants[0]), wants.subrange(1, wants.len() as int))
    }
}

/// After any sequence of reconciliations, the default family is present,
/// regardless of what the descriptors held.
pub proof fn lemma_default_survives_any_sequence(present: Set<Seq<char>>, wants: Seq<Set<Seq<char>>>)
    requires
        present.contains(default_cf_name()),
    ensures
        reconcile_all(present, wants).contains(default_cf_name()),
    decreases wants.len(),
{
    if wants.len() > 0 {
        lemma_target_keeps_default(true, present, wants[0]);
        lemma_default_survives_any_sequence(
            reconcile_target(true, present, wants[0]),
            wants.subrange(1, wants.len() as int),
        );
    }
}

/// Re-running a reconciliation with the same descriptor converges: the target
/// reached once is a fixed point.
pub proof fn lemma_reconcile_idempotent(present: Set<Seq<char>>, wanted: Set<Seq<char>>)
    requires
        present.contains(default_cf_name()),
    ensures
        reconcile_target(true, reconcile_target(true, present, wanted), wanted)
            =~= reconcile_target(true, present, wanted),
{
}

proof fn lemma_push_contains_iff(s: Seq<Seq<char>>, v: Seq<char>)
    ensures
        forall|x: Seq<char>| #[trigger] s.push(v).contains(x) <==> (s.contains(x) || x == v),
{
    assert forall|x: Seq<char>| #[trigger] s.push(v).contains(x) implies (s.contains(x) || x == v) by {
        let j = choose|j: int| 0 <= j < s.push(v).len() && s.push(v)[j] == x;
        if j < s.len() {
            assert(s[j] == x);
        }
    }
    assert forall|x: Seq<char>| (s.contains(x) || x == v) implies #[trigger] s.push(v).contains(
        x,
    ) by {
        if s.contains(x) {
            let j = choose|j: int| 0 <= j < s.len() && s[j] == x;
            assert(s.push(v)[j] == x);
        } else {
            assert(s.push(v)[s.len() as int] == x);
        }
    }
}

proof fn lemma_dropped_names_push(present: Seq<Seq<char>>, wanted: Seq<Seq<char>>, v: Seq<char>)
    ensures
        dropped_names(present.push(v), wanted) == (if !wanted.contains(v) && v != default_cf_name() {
            dropped_names(present, wanted).push(v)
        } else {
            dropped_names(present, wanted)
        }),
{
    reveal(Seq::filter);
    assert(present.push(v).drop_last() =~= present);
    assert(present.push(v).last() == v);
}

proof fn lemma_dropped_names_none(present: Seq<Seq<char>>, wanted: Seq<Seq<char>>)
    requires
        forall|i: int|
            0 <= i < present.len() ==> (wanted.contains(#[trigger] present[i]) || present[i]
                == default_cf_name()),
    ensures
        dropped_names(present, wanted).len() == 0,
    decreases present.len(),
{
    reveal(Seq::filter);
    if present.len() > 0 {
        assert forall|i: int|
            0 <= i < present.drop_last().len() implies (wanted.contains(
                #[trigger] present.drop_last()[i],
            ) || present.drop_last()[i] == default_cf_name()) by {
            assert(present.drop_last()[i] == present[i]);
        }
        lemma_dropped_names_none(present.drop_last(), wanted);
        assert(wanted.contains(present[present.len() - 1]) || present[present.len() - 1]
            == default_cf_name());
        assert(dropped_names(present, wanted) == dropped_names(present.drop_last(), wanted));
    }
}

proof fn lemma_created_names_push(wanted: Seq<Seq<char>>, present: Seq<Seq<char>>, v: Seq<char>)
    ensures
        created_names(wanted.push(v), present) == (if !present.contains(v) {
            created_names(wanted, present).push(v)
        } else {
            created_names(wanted, present)
        }),
{
    reveal(Seq::filter);
    assert(wanted.push(v).drop_last() =~= wanted);
    assert(wanted.push(v).last() == v);
}

proof fn lemma_created_names_none(wanted: Seq<Seq<char>>, present: Seq<Seq<char>>)
    requires
        forall|i: int| 0 <= i < wanted.len() ==> present.contains(#[trigger] wanted[i]),
    ensures
        created_names(wanted, present).len() == 0,
    decreases wanted.len(),
{
    reveal(Seq::filter);
    if wanted.len() > 0 {
        assert forall|i: int| 0 <= i < wanted.drop_last().len() implies present.contains(
            #[trigger] wanted.drop_last()[i],
        ) by {
            assert(wanted.drop_last()[i] == wanted[i]);
        }
        lemma_created_names_none(wanted.drop_last(), present);
        assert(present.contains(wanted[wanted.len() - 1]));
        assert(created_names(wanted, present) == created_names(wanted.drop_last(), present));
    }
}

proof fn lemma_bootstrap_created_names_push(wanted: Seq<Seq<char>>, v: Seq<char>)
    ensures
        bootstrap_created_names(wanted.push(v)) == (if v != default_cf_name() {
            bootstrap_created_names(wanted).push(v)
        } else {
            bootstrap_created_names(wanted)
        }),
{
    reveal(Seq::filter);
    assert(wanted.push(v).drop_last() =~= wanted);
    assert(wanted.push(v).last() == v);
}

/// True when `x` occurs in `v`.
fn contains_name(v: &Vec<String>, x: &String) -> (r: bool)
    ensures
        r == v.deep_view().contains(x@),
{
    let n = v.len();
    let mut i: usize = 0;
    while i < n
        invariant
            n == v@.len(),
            0 <= i <= n,
            forall|j: int| 0 <= j < i ==> v.deep_view()[j] != x@,
        decreases n - i,
    {
        if v[i] == *x {
            proof {
                assert(v.deep_view()[i as int] == x@);
            }
            return true;
        }
        i = i + 1;
    }
    false
}

/// The first descriptor entry carrying name `x`, if any.
fn find_cf<O>(d: &Vec<CFOptions<O>>, x: &String) -> (r: Option<usize>)
    ensures
        match r {
            Some(i) => 0 <= i < d@.len() && d@[i as int].cf@ == x@,
            None => !desc_names(d@).contains(x@),
        },
{
    let n = d.len();
    let mut i: usize = 0;
    while i < n
        invariant
            n == d@.len(),
            0 <= i <= n,
            forall|j: int| 0 <= j < i ==> d@[j].cf@ != x@,
        decreases n - i,
    {
        if d[i].cf == *x {
            return Some(i);
        }
        i = i + 1;
    }
    None
}

/// True when every name in `existing` is some descriptor entry's name.
fn all_existing_in_descriptor<O>(existing: &Vec<String>, d: &Vec<CFOptions<O>>) -> (r: bool)
    ensures
        r == (name_set(existing.deep_view()) <= name_set(desc_names(d@))),
{
    let n = existing.len();
    let mut i: usize = 0;
    while i < n
        invariant
            n == existing@.len(),
            0 <= i <= n,
            forall|j: int| 0 <= j < i ==> desc_names(d@).contains(existing.deep_view()[j]),
        decreases n - i,
    {
        match find_cf(d, &existing[i]) {
            None => {
                proof {
                    let w = existing.deep_view()[i as int];
                    assert(existing.deep_view().contains(w));
                    if name_set(existing.deep_view()) <= name_set(desc_names(d@)) {
                        assert(name_set(existing.deep_view()).contains(w));
                        assert(name_set(desc_names(d@)).contains(w));
                        assert(false);
                    }
                }
                return false;
            },
            Some(k) => {
                proof {
                    assert(desc_names(d@)[k as int] == existing.deep_view()[i as int]);
                    assert(desc_names(d@).contains(existing.deep_view()[i as int]));
                }
            },
        }
        i = i + 1;
    }
    proof {
        assert forall|x: Seq<char>| name_set(existing.deep_view()).contains(x) implies name_set(
            desc_names(d@),
        ).contains(x) by {
            let j = choose|j: int| 0 <= j < existing.deep_view().len() && existing.deep_view()[j]
                == x;
        }
    }
    true
}

/// True when every descriptor entry's name occurs in `existing`.
fn all_descriptor_in_existing<O>(d: &Vec<CFOptions<O>>, existing: &Vec<String>) -> (r: bool)
    ensures
        r == (name_set(desc_names(d@)) <= name_set(existing.deep_view())),
{
    let n = d.len();
    let mut i: usize = 0;
    while i < n
        invariant
            n == d@.len(),
            0 <= i <= n,
            forall|j: int| 0 <= j < i ==> existing.deep_view().contains(desc_names(d@)[j]),
        decreases n - i,
    {
        if !contains_name(existing, &d[i].cf) {
            proof {
                let w = desc_names(d@)[i as int];
                assert(w == d@[i as int].cf@);
                assert(desc_names(d@).contains(w));
                if name_set(desc_names(d@)) <= name_set(existing.deep_view()) {
                    assert(name_set(desc_names(d@)).contains(w));
                    assert(name_set(existing.deep_view()).contains(w));
                    assert(false);
                }
            }
            return false;
        }
        proof {
            assert(desc_names(d@)[i as int] == d@[i as int].cf@);
        }
        i = i + 1;
    }
    proof {
        assert forall|x: Seq<char>| name_set(desc_names(d@)).contains(x) implies name_set(
            existing.deep_view(),
        ).contains(x) by {
            let j = choose|j: int| 0 <= j < desc_names(d@).len() && desc_names(d@)[j] == x;
        }
    }
    true
}

/// Plans one reconciliation. `existing` is the listing of families physically
/// present and is consulted only when `exists` holds; `descriptor` is what the
/// caller wants. The plan opens a fresh engine with the descriptor's default
/// entry (if any) and creates the rest, or opens an existing engine with
/// exactly the present set and then drops and creates the difference — and in
/// either case reaches the requested families plus the default one.
///
/// The operation lists are fixed exactly, not merely through the resulting
/// set: the drops are the present-but-unwanted families save the default one,
/// the creates the wanted-but-absent families in descriptor order, and a
/// family the descriptor configures is opened under its own entry (`Fresh`
/// options go only to families the descriptor does not mention). A store
/// already at its target — present families wanted, wanted families present —
/// plans no drop and no create at all, so data in a family that is present
/// and still requested is never touched.
pub fn reconcile_plan<O>(exists: bool, existing: &Vec<String>, descriptor: &Vec<CFOptions<O>>) -> (p:
    ReconcilePlan)
    ensures
        p.create_engine == !exists,
        forall|i: int|
            0 <= i < p.opens@.len() ==> (#[trigger] p.opens@[i].source matches
                OptionsSource::Descriptor(j) ==> 0 <= j < descriptor@.len() && descriptor@[
            j as int].cf@ == p.opens@[i].name@),
        forall|i: int|
            0 <= i < p.creates@.len() ==> (#[trigger] p.creates@[i].index as int) < descriptor@.len()
                && descriptor@[p.creates@[i].index as int].cf@ == p.creates@[i].name@,
        forall|i: int, j: int|
            0 <= i < j < p.creates@.len() ==> #[trigger] p.creates@[i].index < #[trigger] p.creates@[j].index,
        forall|i: int| 0 <= i < p.drops@.len() ==> (#[trigger] p.drops@[i]@) != default_cf_name(),
        exists ==> name_set(names_of_opens(p.opens@)) =~= name_set(existing.deep_view()),
        !exists ==> (forall|i: int|
            0 <= i < p.opens@.len() ==> (#[trigger] p.opens@[i].name@) == default_cf_name()),
        exists ==> p.drops.deep_view() == dropped_names(
            existing.deep_view(),
            desc_names(descriptor@),
        ),
        !exists ==> p.drops@.len() == 0,
        exists ==> names_of_creates(p.creates@) == created_names(
            desc_names(descriptor@),
            existing.deep_view(),
        ),
        !exists ==> names_of_creates(p.creates@) == bootstrap_created_names(
            desc_names(descriptor@),
        ),
        forall|i: int|
            0 <= i < p.opens@.len() ==> ((#[trigger] p.opens@[i].source) is Fresh
                ==> !desc_names(descriptor@).contains(p.opens@[i].name@)),
        exists && (forall|x: Seq<char>|
            #[trigger] existing.deep_view().contains(x) ==> (desc_names(descriptor@).contains(x)
                || x == default_cf_name())) ==> p.drops@.len() == 0,
        exists && (forall|x: Seq<char>|
            #[trigger] desc_names(descriptor@).contains(x) ==> existing.deep_view().contains(x))
            ==> p.creates@.len() == 0,
        exists && name_set(existing.deep_view()) == name_set(desc_names(descriptor@)) ==> (
        p.drops@.len() == 0 && p.creates@.len() == 0 && names_of_opens(p.opens@) == desc_names(
            descriptor@,
        ) && (forall|i: int|
            0 <= i < p.opens@.len() ==> (#[trigger] p.opens@[i].source) == OptionsSource::Descriptor(
                i as usize,
            ))),
        exists && name_set(existing.deep_view()) != name_set(desc_names(descriptor@))
            ==> names_of_opens(p.opens@) == existing.deep_view(),
        !exists ==> (desc_names(descriptor@).contains(default_cf_name()) ==> (p.opens@.len() == 1
            && p.opens@[0].name@ == default_cf_name())),
        !exists ==> (!desc_names(descriptor@).contains(default_cf_name()) ==> p.opens@.len() == 0),
        cf_set_after(p, existing.deep_view()) =~= reconcile_target(
            exists,
            name_set(existing.deep_view()),
            name_set(desc_names(descriptor@)),
        ),
{
    let ghost e = existing.deep_view();
    let ghost dn = desc_names(descriptor@);
    let default_name = default_cf();
    if !exists {
        // Bootstrap: open with the descriptor's default entry alone (the
        // engine demands the default family at creation time), then create
        // every other descriptor entry in order.
        let mut opens: Vec<OpenEntry> = Vec::new();
        match find_cf(descriptor, &default_name) {
            Some(i) => {
                opens.push(OpenEntry { name: default_cf(), source: OptionsSource::Descriptor(i) });
                proof {
                    assert(dn[i as int] == default_cf_name());
                    assert(dn.contains(default_cf_name()));
                    assert(opens@.len() == 1 && opens@[0].name@ == default_cf_name());
                    assert(!(opens@[0].source is Fresh));
                }
            },
            None => {
                proof {
                    assert(!dn.contains(default_cf_name()));
                }
            },
        }
        let mut creates: Vec<CreateEntry> = Vec::new();
        let n = descriptor.len();
        let mut i: usize = 0;
        while i < n
            invariant
                n == descriptor@.len(),
                dn == desc_names(descriptor@),
                default_name@ == default_cf_name(),
                0 <= i <= n,
                forall|j: int|
                    0 <= j < creates@.len() ==> (#[trigger] creates@[j].index as int)
                        < descriptor@.len() && descriptor@[creates@[j].index as int].cf@
                        == creates@[j].name@,
                forall|j: int| 0 <= j < creates@.len() ==> (#[trigger] creates@[j].index as int) < i,
                forall|j1: int, j2: int|
                    0 <= j1 < j2 < creates@.len() ==> #[trigger] creates@[j1].index
                        < #[trigger] creates@[j2].index,
                forall|x: Seq<char>|
                    #[trigger] names_of_creates(creates@).contains(x) <==> (dn.take(
                        i as int,
                    ).contains(x) && x != default_cf_name()),
                names_of_creates(creates@) == bootstrap_created_names(dn.take(i as int)),
            decreases n - i,
        {
            let ghost cn0 = names_of_creates(creates@);
            let ghost t0 = dn.take(i as int);
            let ghost t1 = dn.take(i + 1);
            proof {
                assert(t1 =~= t0.push(dn[i as int]));
                lemma_push_contains_iff(t0, dn[i as int]);
                lemma_bootstrap_created_names_push(t0, dn[i as int]);
            }
            let is_default = descriptor[i].cf == default_name;
            if !is_default {
                creates.push(CreateEntry { name: descriptor[i].cf.clone(), index: i });
                proof {
                    assert(names_of_creates(creates@) =~= cn0.push(dn[i as int]));
                    lemma_push_contains_iff(cn0, dn[i as int]);
                }
            }
            proof {
                assert(dn[i as int] == descriptor@[i as int].cf@);
                assert forall|x: Seq<char>| #[trigger] names_of_creates(creates@).contains(x)
                    <==> (t1.contains(x) && x != default_cf_name()) by {
                    assert(t1.contains(x) <==> (t0.contains(x) || x == dn[i as int]));
                    if !is_default {
                        assert(names_of_creates(creates@).contains(x) <==> (cn0.contains(x) || x
                            == dn[i as int]));
                    }
                }
                assert(names_of_creates(creates@) == bootstrap_created_names(t1));
            }
            i = i + 1;
        }
        let p = ReconcilePlan { create_engine: true, opens, drops: Vec::new(), creates };
        proof {
            assert(dn.take(n as int) =~= dn);
            assert(names_of_creates(p.creates@) == bootstrap_created_names(dn));
            assert forall|i2: int| 0 <= i2 < p.opens@.len() implies !((
            #[trigger] p.opens@[i2].source) is Fresh) by {
                assert(i2 == 0);
            }
            assert(p.drops.deep_view() =~= Seq::<Seq<char>>::empty());
            let target = reconcile_target(false, name_set(e), name_set(dn));
            assert forall|x: Seq<char>| cf_set_after(p, e).contains(x) implies target.contains(
                x,
            ) by {
                if names_of_opens(p.opens@).contains(x) {
                    assert(x == default_cf_name());
                }
            }
            assert forall|x: Seq<char>| target.contains(x) implies cf_set_after(p, e).contains(
                x,
            ) by {
                if x != default_cf_name() {
                    assert(names_of_creates(p.creates@).contains(x));
                }
            }
            assert(cf_set_after(p, e) =~= target);
        }
        return p;
    }
    // The directory exists: compare the present set against the wanted set.
    let same = all_existing_in_descriptor(existing, descriptor) && all_descriptor_in_existing(
        descriptor,
        existing,
    );
    if same {
        // Identical as sets: open directly, supplying every present family
        // its descriptor options; nothing to drop or create.
        let mut opens: Vec<OpenEntry> = Vec::new();
        let n = descriptor.len();
        let mut i: usize = 0;
        while i < n
            invariant
                n == descriptor@.len(),
                dn == desc_names(descriptor@),
                0 <= i <= n,
                names_of_opens(opens@) =~= dn.take(i as int),
                forall|j: int|
                    0 <= j < opens@.len() ==> (#[trigger] opens@[j].source matches
                        OptionsSource::Descriptor(k) ==> 0 <= k < descriptor@.len() && descriptor@[
                    k as int].cf@ == opens@[j].name@),
                forall|j: int|
                    0 <= j < opens@.len() ==> (#[trigger] opens@[j].source)
                        == OptionsSource::Descriptor(j as usize),
            decreases n - i,
        {
            let ghost on0 = names_of_opens(opens@);
            opens.push(
                OpenEntry { name: descriptor[i].cf.clone(), source: OptionsSource::Descriptor(i) },
            );
            proof {
                assert(names_of_opens(opens@) =~= on0.push(dn[i as int]));
                assert(names_of_opens(opens@) =~= dn.take(i + 1));
            }
            i = i + 1;
        }
        let p = ReconcilePlan {
            create_engine: false,
            opens,
            drops: Vec::new(),
            creates: Vec::new(),
        };
        proof {
            assert(dn.take(n as int) =~= dn);
            assert(p.drops.deep_view() =~= Seq::<Seq<char>>::empty());
            assert(names_of_creates(p.creates@) =~= Seq::<Seq<char>>::empty());
            assert forall|x: Seq<char>| name_set(names_of_opens(p.opens@)).contains(x)
                <==> name_set(e).contains(x) by {
                if dn.contains(x) {
                    assert(name_set(dn).contains(x));
                    assert(name_set(e).contains(x));
                }
                if e.contains(x) {
                    assert(name_set(e).contains(x));
                    assert(name_set(dn).contains(x));
                }
            }
            assert(name_set(names_of_opens(p.opens@)) =~= name_set(e));
            assert forall|x: Seq<char>| cf_set_after(p, e).contains(x) <==> reconcile_target(
                true,
                name_set(e),
                name_set(dn),
            ).contains(x) by {
                if dn.contains(x) {
                    assert(name_set(dn).contains(x));
                    assert(name_set(e).contains(x));
                }
            }
            assert(cf_set_after(p, e) =~= reconcile_target(true, name_set(e), name_set(dn)));
            assert(name_set(e) =~= name_set(dn));
            assert forall|i2: int| 0 <= i2 < e.len() implies dn.contains(#[trigger] e[i2]) by {
                assert(e.contains(e[i2]));
                assert(name_set(e).contains(e[i2]));
                assert(name_set(dn).contains(e[i2]));
            }
            assert forall|i2: int| 0 <= i2 < dn.len() implies e.contains(#[trigger] dn[i2]) by {
                assert(dn.contains(dn[i2]));
                assert(name_set(dn).contains(dn[i2]));
                assert(name_set(e).contains(dn[i2]));
            }
            lemma_dropped_names_none(e, dn);
            lemma_created_names_none(dn, e);
            assert(p.drops.deep_view() =~= dropped_names(e, dn));
            assert(names_of_creates(p.creates@) =~= created_names(dn, e));
            assert(names_of_opens(p.opens@) == dn);
        }
        return p;
    }
    // Differing sets: open with exactly the present families (descriptor
    // options where given, fresh options for a family about to be dropped),
    // then drop what the descriptor no longer wants — never the default
    // family — and create what it newly wants.
    let mut opens: Vec<OpenEntry> = Vec::new();
    let mut drops: Vec<String> = Vec::new();
    let n = existing.len();
    let mut i: usize = 0;
    while i < n
        invariant
            n == existing@.len(),
            e == existing.deep_view(),
            dn == desc_names(descriptor@),
            default_name@ == default_cf_name(),
            0 <= i <= n,
            names_of_opens(opens@) =~= e.take(i as int),
            forall|j: int|
                0 <= j < opens@.len() ==> (#[trigger] opens@[j].source matches
                    OptionsSource::Descriptor(k) ==> 0 <= k < descriptor@.len() && descriptor@[
                k as int].cf@ == opens@[j].name@),
            forall|j: int|
                0 <= j < opens@.len() ==> ((#[trigger] opens@[j].source) is Fresh ==> !dn.contains(
                    opens@[j].name@,
                )),
            forall|j: int| 0 <= j < drops@.len() ==> (#[trigger] drops@[j]@) != default_cf_name(),
            forall|x: Seq<char>|
                #[trigger] drops.deep_view().contains(x) <==> (e.take(i as int).contains(x)
                    && !dn.contains(x) && x != default_cf_name()),
            drops.deep_view() == dropped_names(e.take(i as int), dn),
        decreases n - i,
    {
        let ghost on0 = names_of_opens(opens@);
        let ghost dr0 = drops.deep_view();
        let ghost t0 = e.take(i as int);
        let ghost t1 = e.take(i + 1);
        proof {
            assert(t1 =~= t0.push(e[i as int]));
            lemma_push_contains_iff(t0, e[i as int]);
            lemma_dropped_names_push(t0, dn, e[i as int]);
        }
        let found = find_cf(descriptor, &existing[i]);
        let source = match found {
            Some(j) => {
                proof {
                    assert(dn[j as int] == e[i as int]);
                    assert(dn.contains(e[i as int]));
                }
                OptionsSource::Descriptor(j)
            },
            None => OptionsSource::Fresh,
        };
        opens.push(OpenEntry { name: existing[i].clone(), source });
        proof {
            assert(names_of_opens(opens@) =~= on0.push(e[i as int]));
            assert(names_of_opens(opens@) =~= t1);
        }
        let in_descriptor = found.is_some();
        let is_default = existing[i] == default_name;
        if !in_descriptor && !is_default {
            drops.push(existing[i].clone());
            proof {
                assert(drops.deep_view() =~= dr0.push(e[i as int]));
                lemma_push_contains_iff(dr0, e[i as int]);
            }
        }
        proof {
            assert forall|x: Seq<char>| #[trigger] drops.deep_view().contains(x) <==> (t1.contains(
                x,
            ) && !dn.contains(x) && x != default_cf_name()) by {
                assert(t1.contains(x) <==> (t0.contains(x) || x == e[i as int]));
                if !in_descriptor && !is_default {
                    assert(drops.deep_view().contains(x) <==> (dr0.contains(x) || x
                        == e[i as int]));
                }
            }
            assert(drops.deep_view() == dropped_names(t1, dn));
        }
        i = i + 1;
    }
    let mut creates: Vec<CreateEntry> = Vec::new();
    let m = descriptor.len();
    let mut i: usize = 0;
    while i < m
        invariant
            m == descriptor@.len(),
            e == existing.deep_view(),
            dn == desc_names(descriptor@),
            0 <= i <= m,
            forall|j: int|
                0 <= j < creates@.len() ==> (#[trigger] creates@[j].index as int)
                    < descriptor@.len() && descriptor@[creates@[j].index as int].cf@
                    == creates@[j].name@,
            forall|j: int| 0 <= j < creates@.len() ==> (#[trigger] creates@[j].index as int) < i,
            forall|j1: int, j2: int|
                0 <= j1 < j2 < creates@.len() ==> #[trigger] creates@[j1].index
                    < #[trigger] creates@[j2].index,
            forall|x: Seq<char>|
                #[trigger] names_of_creates(creates@).contains(x) <==> (dn.take(
                    i as int,
                ).contains(x) && !e.contains(x)),
            names_of_creates(creates@) == created_names(dn.take(i as int), e),
        decreases m - i,
    {
        let ghost cn0 = names_of_creates(creates@);
        let ghost t0 = dn.take(i as int);
        let ghost t1 = dn.take(i + 1);
        proof {
            assert(t1 =~= t0.push(dn[i as int]));
            lemma_push_contains_iff(t0, dn[i as int]);
            lemma_created_names_push(t0, e, dn[i as int]);
            assert(dn[i as int] == descriptor@[i as int].cf@);
        }
        let wanted_here = contains_name(existing, &descriptor[i].cf);
        if !wanted_here {
            creates.push(CreateEntry { name: descriptor[i].cf.clone(), index: i });
            proof {
                assert(names_of_creates(creates@) =~= cn0.push(dn[i as int]));
                lemma_push_contains_iff(cn0, dn[i as int]);
            }
        }
        proof {
            assert forall|x: Seq<char>| #[trigger] names_of_creates(creates@).contains(x) <==> (
            t1.contains(x) && !e.contains(x)) by {
                assert(t1.contains(x) <==> (t0.contains(x) || x == dn[i as int]));
                if !wanted_here {
                    assert(names_of_creates(creates@).contains(x) <==> (cn0.contains(x) || x
                        == dn[i as int]));
                }
            }
            assert(names_of_creates(creates@) == created_names(t1, e));
        }
        i = i + 1;
    }
    let p = ReconcilePlan { create_engine: false, opens, drops, creates };
    proof {
        assert(e.take(n as int) =~= e);
        assert(dn.take(m as int) =~= dn);
        assert(name_set(names_of_opens(p.opens@)) =~= name_set(e));
        assert(p.drops.deep_view() == dropped_names(e, dn));
        assert(names_of_creates(p.creates@) == created_names(dn, e));
        assert(names_of_opens(p.opens@) == e);
        if name_set(e) == name_set(dn) {
            assert(name_set(e) <= name_set(dn));
            assert(name_set(dn) <= name_set(e));
            assert(false);
        }
        if forall|x: Seq<char>| #[trigger] e.contains(x) ==> (dn.contains(x) || x
            == default_cf_name()) {
            assert forall|i2: int|
                0 <= i2 < e.len() implies (dn.contains(#[trigger] e[i2]) || e[i2]
                    == default_cf_name()) by {
                assert(e.contains(e[i2]));
            }
            lemma_dropped_names_none(e, dn);
            assert(p.drops.deep_view().len() == 0);
        }
        if forall|x: Seq<char>| #[trigger] dn.contains(x) ==> e.contains(x) {
            assert forall|i2: int| 0 <= i2 < dn.len() implies e.contains(#[trigger] dn[i2]) by {
                assert(dn.contains(dn[i2]));
            }
            lemma_created_names_none(dn, e);
            assert(names_of_creates(p.creates@).len() == 0);
        }
        let target = reconcile_target(true, name_set(e), name_set(dn));
        assert forall|x: Seq<char>| cf_set_after(p, e).contains(x) <==> target.contains(x) by {}
        assert(cf_set_after(p, e) =~= target);
    }
    p
}

} // verus!
