//! The story registry: loaded stories by name, and the one active story.

use vstd::prelude::*;

use crate::errors::LookupError;
use crate::graph::{GraphModel, StoryGraph};

verus! {

/// One loaded story: its name and its graph.
pub struct StoryEntry {
    pub name: String,
    pub graph: StoryGraph,
}

/// The mathematical value of the registry: the loaded stories in insertion
/// order, and the index of the active one, if any.
pub ghost struct RegistryModel {
    pub entries: Seq<(Seq<char>, GraphModel)>,
    pub active: Option<int>,
}

impl RegistryModel {
    /// Well-formedness: names are unique, every graph is well formed, and
    /// the active index, if set, is in range.
    pub open spec fn wf(self) -> bool {
        &&& forall|p: int, q: int|
            0 <= p < q < self.entries.len() ==> (#[trigger] self.entries[p]).0
                != (#[trigger] self.entries[q]).0
        &&& forall|p: int| 0 <= p < self.entries.len() ==> (#[trigger] self.entries[p]).1.wf()
        &&& match self.active {
            Some(i) => 0 <= i < self.entries.len(),
            None => true,
        }
    }
}

/// First index of `name` in `es`, from `from` on; `None` when absent.
pub open spec fn lookup_from(
    es: Seq<(Seq<char>, GraphModel)>,
    name: Seq<char>,
    from: int,
) -> Option<int>
    decreases es.len() - from,
{
    if from < 0 || from >= es.len() {
        None
    } else if es[from].0 == name {
        Some(from)
    } else {
        lookup_from(es, name, from + 1)
    }
}

/// First index of `name` in `es`; `None` when no entry has that name.
pub open spec fn lookup_name(es: Seq<(Seq<char>, GraphModel)>, name: Seq<char>) -> Option<int> {
    lookup_from(es, name, 0)
}

/// The graph stored under `name`, if any.
pub open spec fn stored(m: RegistryModel, name: Seq<char>) -> Option<GraphModel> {
    match lookup_name(m.entries, name) {
        Some(i) => Some(m.entries[i].1),
        None => None,
    }
}

/// The registry after `load(name, g)`: the entry under `name` is replaced,
/// or appended when the name is new; the active index is untouched.
pub open spec fn load_model(m: RegistryModel, name: Seq<char>, g: GraphModel) -> RegistryModel {
    match lookup_name(m.entries, name) {
        Some(i) => RegistryModel { entries: m.entries.update(i, (name, g)), active: m.active },
        None => RegistryModel { entries: m.entries.push((name, g)), active: m.active },
    }
}

/// The active graph of `m`, if one has been activated.
pub open spec fn active_model(m: RegistryModel) -> Option<GraphModel> {
    match m.active {
        Some(i) => Some(m.entries[i].1),
        None => None,
    }
}

pub proof fn lemma_lookup_from(es: Seq<(Seq<char>, GraphModel)>, name: Seq<char>, from: int)
    requires
        0 <= from <= es.len(),
    ensures
        match lookup_from(es, name, from) {
            Some(i) => from <= i < es.len() && es[i].0 == name && forall|t: int|
                from <= t < i ==> (#[trigger] es[t]).0 != name,
            None => forall|t: int| from <= t < es.len() ==> (#[trigger] es[t]).0 != name,
        },
    decreases es.len() - from,
{
    if from < es.len() && es[from].0 != name {
        lemma_lookup_from(es, name, from + 1);
    }
}

/// The process-wide mapping of story name to graph, plus the single
/// "currently active story" slot that new sessions anchor to.
pub struct StoryRegistry {
    entries: Vec<StoryEntry>,
    active: Option<usize>,
}

impl View for StoryRegistry {
    type V = RegistryModel;

    closed spec fn view(&self) -> RegistryModel {
        RegistryModel {
            entries: self.entries@.map_values(|e: StoryEntry| (e.name@, e.graph@)),
            active: match self.active {
                Some(i) => Some(i as int),
                None => None,
            },
        }
    }
}

impl StoryRegistry {
    /// An empty registry: nothing loaded, nothing active.
    pub fn new() -> (r: StoryRegistry)
        ensures
            r@.entries == Seq::<(Seq<char>, GraphModel)>::empty(),
            r@.active is None,
            r@.wf(),
    {
        let r = StoryRegistry { entries: Vec::new(), active: None };
        proof {
            assert(r@.entries =~= Seq::<(Seq<char>, GraphModel)>::empty());
        }
        r
    }

    /// First index of `name` among the loaded stories, if any.
    fn position_of(&self, name: &str) -> (r: Option<usize>)
        ensures
            match r {
                Some(i) => lookup_name(self@.entries, name@) == Some(i as int),
                None => lookup_name(self@.entries, name@) is None,
            },
    {
        let ghost es = self@.entries;
        let mut k: usize = 0;
        while k < self.entries.len()
            invariant
                k <= self.entries.len(),
                es == self@.entries,
                es.len() == self.entries@.len(),
                forall|t: int| 0 <= t < k ==> (#[trigger] es[t]).0 != name@,
            decreases self.entries.len() - k,
        {
            let no = name.to_owned();
            if self.entries[k].name.eq(&no) {
                proof {
                    lemma_lookup_from(es, name@, 0);
                    assert(es[k as int].0 == name@);
                }
                return Some(k);
            }
            k = k + 1;
        }
        proof {
            lemma_lookup_from(es, name@, 0);
        }
        None
    }

    /// Inserts or replaces the graph stored under `name`; the last load
    /// wins. The active slot and every other entry are untouched.
    pub fn load(&mut self, name: &str, graph: StoryGraph)
        requires
            old(self)@.wf(),
            graph@.wf(),
        ensures
            final(self)@ == load_model(old(self)@, name@, graph@),
            final(self)@.wf(),
    {
        let ghost m0 = self@;
        match self.position_of(name) {
            Some(i) => {
                proof {
                    lemma_lookup_from(m0.entries, name@, 0);
                }
                self.entries[i] = StoryEntry { name: name.to_owned(), graph: graph };
                proof {
                    assert(self@.entries =~= m0.entries.update(i as int, (name@, graph@)));
                    assert(self@ == load_model(m0, name@, graph@));
                    assert forall|p: int, q: int|
                        0 <= p < q < self@.entries.len() implies (#[trigger] self@.entries[p]).0
                        != (#[trigger] self@.entries[q]).0 by {
                        assert(m0.entries[p].0 != m0.entries[q].0);
                    }
                }
            },
            None => {
                proof {
                    lemma_lookup_from(m0.entries, name@, 0);
                }
                self.entries.push(StoryEntry { name: name.to_owned(), graph: graph });
                proof {
                    assert(self@.entries =~= m0.entries.push((name@, graph@)));
                    assert(self@ == load_model(m0, name@, graph@));
                }
            },
        }
    }

    /// The names of the loaded stories, in insertion order.
    pub fn list(&self) -> (r: Vec<String>)
        ensures
            r@.len() == self@.entries.len(),
            forall|i: int| 0 <= i < r@.len() ==> (#[trigger] r@[i])@ == self@.entries[i].0,
    {
        let mut out: Vec<String> = Vec::new();
        let mut k: usize = 0;
        while k < self.entries.len()
            invariant
                k <= self.entries.len(),
                self@.entries.len() == self.entries@.len(),
                out@.len() == k,
                forall|i: int| 0 <= i < k ==> (#[trigger] out@[i])@ == self@.entries[i].0,
            decreases self.entries.len() - k,
        {
            out.push(self.entries[k].name.clone());
            k = k + 1;
        }
        out
    }

    /// Makes the story loaded under `name` the active one; every later
    /// session start anchors to it. Fails, changing nothing, when no story
    /// of that name is loaded.
    pub fn activate(&mut self, name: &str) -> (r: Result<(), LookupError>)
        requires
            old(self)@.wf(),
        ensures
            final(self)@.wf(),
            match r {
                Ok(()) => lookup_name(old(self)@.entries, name@) is Some && final(self)@
                    == (RegistryModel {
                    entries: old(self)@.entries,
                    active: lookup_name(old(self)@.entries, name@),
                }),
                Err(LookupError::NotFound) => lookup_name(old(self)@.entries, name@) is None
                    && final(self)@ == old(self)@,
            },
    {
        proof {
            lemma_lookup_from(self@.entries, name@, 0);
        }
        match self.position_of(name) {
            Some(i) => {
                self.active = Some(i);
                Ok(())
            },
            None => Err(LookupError::NotFound),
        }
    }

    /// The active graph, or `None` when nothing has been activated yet.
    pub fn active(&self) -> (r: Option<&StoryGraph>)
        requires
            self@.wf(),
        ensures
            match r {
                Some(g) => active_model(self@) == Some(g@),
                None => active_model(self@) is None,
            },
    {
        match self.active {
            Some(i) => Some(&self.entries[i].graph),
            None => None,
        }
    }
}

/// Loading under one name twice leaves only the second graph retrievable
/// under that name, and every other name untouched.
pub proof fn lemma_load_last_wins(
    m: RegistryModel,
    name: Seq<char>,
    g1: GraphModel,
    g2: GraphModel,
)
    ensures
        stored(load_model(load_model(m, name, g1), name, g2), name) == Some(g2),
        forall|other: Seq<char>|
            other != name ==> #[trigger] stored(load_model(load_model(m, name, g1), name, g2), other)
                == stored(m, other),
{
    let m1 = load_model(m, name, g1);
    let m2 = load_model(m1, name, g2);
    lemma_load_lookup(m, name, g1);
    lemma_load_lookup(m1, name, g2);
    assert forall|other: Seq<char>| other != name implies #[trigger] stored(m2, other) == stored(
        m,
        other,
    ) by {
        lemma_load_other(m, name, g1, other);
        lemma_load_other(m1, name, g2, other);
    }
}

/// After a load, `name` is stored and maps to the loaded graph.
pub proof fn lemma_load_lookup(m: RegistryModel, name: Seq<char>, g: GraphModel)
    ensures
        stored(load_model(m, name, g), name) == Some(g),
{
    let es = m.entries;
    lemma_lookup_from(es, name, 0);
    match lookup_name(es, name) {
        Some(i) => {
            lemma_lookup_unchanged(es, es.update(i, (name, g)), name, 0);
            assert(lookup_name(es.update(i, (name, g)), name) == Some(i));
        },
        None => {
            lemma_lookup_push_absent(es, name, g);
        },
    }
}

/// A load under `name` does not change what is stored under any other name.
pub proof fn lemma_load_other(m: RegistryModel, name: Seq<char>, g: GraphModel, other: Seq<char>)
    requires
        other != name,
    ensures
        stored(load_model(m, name, g), other) == stored(m, other),
{
    let es = m.entries;
    lemma_lookup_from(es, name, 0);
    match lookup_name(es, name) {
        Some(i) => {
            lemma_lookup_update_other(es, name, g, i, other, 0);
        },
        None => {
            lemma_lookup_push_other(es, name, g, other, 0);
        },
    }
}

proof fn lemma_lookup_unchanged(
    es1: Seq<(Seq<char>, GraphModel)>,
    es2: Seq<(Seq<char>, GraphModel)>,
    name: Seq<char>,
    from: int,
)
    requires
        es1.len() == es2.len(),
        0 <= from <= es1.len(),
        forall|t: int| 0 <= t < es1.len() ==> ((#[trigger] es1[t]).0 == name <==> es2[t].0 == name),
    ensures
        lookup_from(es1, name, from) == lookup_from(es2, name, from),
    decreases es1.len() - from,
{
    if from < es1.len() && es1[from].0 != name {
        lemma_lookup_unchanged(es1, es2, name, from + 1);
    }
}

proof fn lemma_lookup_push_absent(es: Seq<(Seq<char>, GraphModel)>, name: Seq<char>, g: GraphModel)
    requires
        lookup_from(es, name, 0) is None,
    ensures
        lookup_from(es.push((name, g)), name, 0) == Some(es.len() as int),
{
    lemma_lookup_push_step(es, name, g, 0);
}

proof fn lemma_lookup_push_step(
    es: Seq<(Seq<char>, GraphModel)>,
    name: Seq<char>,
    g: GraphModel,
    from: int,
)
    requires
        0 <= from <= es.len(),
        lookup_from(es, name, from) is None,
    ensures
        lookup_from(es.push((name, g)), name, from) == Some(es.len() as int),
    decreases es.len() - from,
{
    if from < es.len() {
        lemma_lookup_push_step(es, name, g, from + 1);
    }
}

proof fn lemma_lookup_update_other(
    es: Seq<(Seq<char>, GraphModel)>,
    name: Seq<char>,
    g: GraphModel,
    i: int,
    other: Seq<char>,
    from: int,
)
    requires
        other != name,
        0 <= i < es.len(),
        es[i].0 == name,
        0 <= from <= es.len(),
    ensures
        ({
            let es2 = es.update(i, (name, g));
            &&& lookup_from(es2, other, from) == lookup_from(es, other, from)
            &&& match lookup_from(es, other, from) {
                Some(k) => es2[k] == es[k],
                None => true,
            }
        }),
    decreases es.len() - from,
{
    if from < es.len() && es[from].0 != other {
        lemma_lookup_update_other(es, name, g, i, other, from + 1);
    }
}

proof fn lemma_lookup_push_other(
    es: Seq<(Seq<char>, GraphModel)>,
    name: Seq<char>,
    g: GraphModel,
    other: Seq<char>,
    from: int,
)
    requires
        other != name,
        0 <= from <= es.len(),
    ensures
        ({
            let es2 = es.push((name, g));
            &&& lookup_from(es2, other, from) == lookup_from(es, other, from)
            &&& match lookup_from(es, other, from) {
                Some(k) => es2[k] == es[k],
                None => true,
            }
        }),
    decreases es.len() - from,
{
    if from < es.len() && es[from].0 != other {
        assert(es.push((name, g))[from] == es[from]);
        lemma_lookup_push_other(es, name, g, other, from + 1);
    } else if from >= es.len() {
        let es2 = es.push((name, g));
        assert(es2[es.len() as int].0 == name);
        assert(lookup_from(es2, other, from + 1) is None);
        assert(lookup_from(es2, other, from) is None);
    } else {
        assert(es.push((name, g))[from] == es[from]);
    }
}

} // verus!
