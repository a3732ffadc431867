//! The registry of plugins.
use crate::ir::DocumentView;
use crate::plugin::{
    str_views, Emission, Emitter, Extraction, Extractor, InputView, Reducer, Reduction,
};
use crate::profile::{OutputFormat, Profile};
use crate::text::same;
use vstd::prelude::*;

verus! {

// ---------------------------------------------------------------------------
// Slots
// ---------------------------------------------------------------------------

/// A place in the registry that holds an extractor.
pub struct ExtractorSlot {
    pub plugin: Box<dyn Extractor>,
}

/// A place in the registry that holds a reducer.
pub struct ReducerSlot {
    pub plugin: Box<dyn Reducer>,
}

/// A place in the registry that holds an emitter.
pub struct EmitterSlot {
    pub plugin: Box<dyn Emitter>,
}

/// Whether a slot behaves as extractor `e` does.
pub open spec fn extracts_as<E: Extractor>(s: ExtractorSlot, e: E) -> bool {
    &&& s.plugin.named() == e.named()
    &&& s.plugin.handles() == e.handles()
    &&& forall|i: InputView, o: Extraction| #[trigger]
        s.plugin.extracts(i, o) == e.extracts(i, o)
}

/// Whether a slot behaves as reducer `r` does.
pub open spec fn reduces_as<R: Reducer>(s: ReducerSlot, r: R) -> bool {
    &&& s.plugin.named() == r.named()
    &&& s.plugin.serves() == r.serves()
    &&& forall|a: DocumentView, b: DocumentView, o: Reduction| #[trigger]
        s.plugin.reduces(a, b, o) == r.reduces(a, b, o)
}

/// Whether a slot behaves as emitter `e` does.
pub open spec fn emits_as<E: Emitter>(s: EmitterSlot, e: E) -> bool {
    &&& s.plugin.named() == e.named()
    &&& s.plugin.writes() == e.writes()
    &&& forall|d: DocumentView, o: Emission| #[trigger] s.plugin.emits(d, o) == e.emits(d, o)
}

/// An extractor that can take its place in the registry.
pub trait PlugExtractor: Extractor + Sized {
    /// A slot that behaves as this extractor does.
    fn plug(self) -> (s: ExtractorSlot)
        ensures
            extracts_as(s, self),
    ;
}

/// A reducer that can take its place in the registry.
pub trait PlugReducer: Reducer + Sized {
    /// A slot that behaves as this reducer does.
    fn plug(self) -> (s: ReducerSlot)
        ensures
            reduces_as(s, self),
    ;
}

/// An emitter that can take its place in the registry.
pub trait PlugEmitter: Emitter + Sized {
    /// A slot that behaves as this emitter does.
    fn plug(self) -> (s: EmitterSlot)
        ensures
            emits_as(s, self),
    ;
}

// ---------------------------------------------------------------------------
// Registry
// ---------------------------------------------------------------------------

/// Holds the registered plugins of all three stages, each in order of registration.
pub struct Registry {
    extractors: Vec<ExtractorSlot>,
    reducers: Vec<ReducerSlot>,
    emitters: Vec<EmitterSlot>,
}

/// Whether `i` is the first extractor that handles `format`.
pub open spec fn first_extractor(s: Seq<ExtractorSlot>, format: Seq<char>, i: int) -> bool {
    &&& 0 <= i < s.len()
    &&& s[i].plugin.handles().contains(format)
    &&& forall|j: int| 0 <= j < i ==> !(#[trigger] s[j]).plugin.handles().contains(format)
}

/// Whether no extractor handles `format`.
pub open spec fn no_extractor(s: Seq<ExtractorSlot>, format: Seq<char>) -> bool {
    forall|j: int| 0 <= j < s.len() ==> !(#[trigger] s[j]).plugin.handles().contains(format)
}

/// Whether `i` is the first reducer that serves `profile`.
pub open spec fn first_reducer(s: Seq<ReducerSlot>, profile: Profile, i: int) -> bool {
    &&& 0 <= i < s.len()
    &&& s[i].plugin.serves() == profile
    &&& forall|j: int| 0 <= j < i ==> (#[trigger] s[j]).plugin.serves() != profile
}

/// Whether no reducer serves `profile`.
pub open spec fn no_reducer(s: Seq<ReducerSlot>, profile: Profile) -> bool {
    forall|j: int| 0 <= j < s.len() ==> (#[trigger] s[j]).plugin.serves() != profile
}

/// Whether `i` is the first emitter that writes `format`.
pub open spec fn first_emitter(s: Seq<EmitterSlot>, format: OutputFormat, i: int) -> bool {
    &&& 0 <= i < s.len()
    &&& s[i].plugin.writes() == format
    &&& forall|j: int| 0 <= j < i ==> (#[trigger] s[j]).plugin.writes() != format
}

/// Whether no emitter writes `format`.
pub open spec fn no_emitter(s: Seq<EmitterSlot>, format: OutputFormat) -> bool {
    forall|j: int| 0 <= j < s.len() ==> (#[trigger] s[j]).plugin.writes() != format
}

impl Registry {
    /// The extractors, in order of registration.
    pub closed spec fn extractors(&self) -> Seq<ExtractorSlot> {
        self.extractors@
    }

    /// The reducers, in order of registration.
    pub closed spec fn reducers(&self) -> Seq<ReducerSlot> {
        self.reducers@
    }

    /// The emitters, in order of registration.
    pub closed spec fn emitters(&self) -> Seq<EmitterSlot> {
        self.emitters@
    }

    /// A registry without plugins.
    pub fn new() -> (r: Self)
        ensures
            r.extractors() == Seq::<ExtractorSlot>::empty(),
            r.reducers() == Seq::<ReducerSlot>::empty(),
            r.emitters() == Seq::<EmitterSlot>::empty(),
    {
        Registry { extractors: Vec::new(), reducers: Vec::new(), emitters: Vec::new() }
    }

    /// Registers an extractor, behind those already there.
    pub fn extractor<E: PlugExtractor>(self, e: E) -> (r: Self)
        ensures
            r.extractors().len() == self.extractors().len() + 1,
            r.extractors().drop_last() == self.extractors(),
            extracts_as(r.extractors().last(), e),
            r.reducers() == self.reducers(),
            r.emitters() == self.emitters(),
    {
        let mut me = self;
        me.extractors.push(e.plug());
        assert(me.extractors().drop_last() =~= self.extractors());
        me
    }

    /// Registers a reducer, behind those already there.
    pub fn reducer<R: PlugReducer>(self, e: R) -> (r: Self)
        ensures
            r.reducers().len() == self.reducers().len() + 1,
            r.reducers().drop_last() == self.reducers(),
            reduces_as(r.reducers().last(), e),
            r.extractors() == self.extractors(),
            r.emitters() == self.emitters(),
    {
        let mut me = self;
        me.reducers.push(e.plug());
        assert(me.reducers().drop_last() =~= self.reducers());
        me
    }

    /// Registers an emitter, behind those already there.
    pub fn emitter<E: PlugEmitter>(self, e: E) -> (r: Self)
        ensures
            r.emitters().len() == self.emitters().len() + 1,
            r.emitters().drop_last() == self.emitters(),
            emits_as(r.emitters().last(), e),
            r.extractors() == self.extractors(),
            r.reducers() == self.reducers(),
    {
        let mut me = self;
        me.emitters.push(e.plug());
        assert(me.emitters().drop_last() =~= self.emitters());
        me
    }

    /// The first extractor that handles `format`.
    pub fn find_extractor(&self, format: &str) -> (r: Option<&dyn Extractor>)
        ensures
            r is None <==> no_extractor(self.extractors(), format@),
            r matches Some(e) ==> exists|i: int| #[trigger]
                first_extractor(self.extractors(), format@, i) && e
                    == &*self.extractors()[i].plugin,
    {
        for i in 0..self.extractors.len()
            invariant
                forall|j: int|
                    0 <= j < i ==> !(#[trigger] self.extractors()[j]).plugin.handles().contains(
                        format@,
                    ),
        {
            let p = &*self.extractors[i].plugin;
            let formats = p.formats();
            if lists(formats, format) {
                assert(first_extractor(self.extractors(), format@, i as int));
                let found = Some(p);
                return found;
            }
        }
        None
    }

    /// The first reducer that serves `profile`.
    pub fn find_reducer(&self, profile: Profile) -> (r: Option<&dyn Reducer>)
        ensures
            r is None <==> no_reducer(self.reducers(), profile),
            r matches Some(e) ==> exists|i: int| #[trigger]
                first_reducer(self.reducers(), profile, i) && e == &*self.reducers()[i].plugin,
    {
        for i in 0..self.reducers.len()
            invariant
                forall|j: int|
                    0 <= j < i ==> (#[trigger] self.reducers()[j]).plugin.serves() != profile,
        {
            let p = &*self.reducers[i].plugin;
            if p.profile() == profile {
                assert(first_reducer(self.reducers(), profile, i as int));
                let found = Some(p);
                return found;
            }
        }
        None
    }

    /// The first emitter that writes `format`.
    pub fn find_emitter(&self, format: OutputFormat) -> (r: Option<&dyn Emitter>)
        ensures
            r is None <==> no_emitter(self.emitters(), format),
            r matches Some(e) ==> exists|i: int| #[trigger]
                first_emitter(self.emitters(), format, i) && e == &*self.emitters()[i].plugin,
    {
        for i in 0..self.emitters.len()
            invariant
                forall|j: int|
                    0 <= j < i ==> (#[trigger] self.emitters()[j]).plugin.writes() != format,
        {
            let p = &*self.emitters[i].plugin;
            if p.format() == format {
                assert(first_emitter(self.emitters(), format, i as int));
                let found = Some(p);
                return found;
            }
        }
        None
    }
}

impl Default for Registry {
    /// A registry without plugins.
    fn default() -> (r: Self)
        ensures
            r.extractors() == Seq::<ExtractorSlot>::empty(),
            r.reducers() == Seq::<ReducerSlot>::empty(),
            r.emitters() == Seq::<EmitterSlot>::empty(),
    {
        Registry::new()
    }
}

/// Whether `name` is one of `names`.
fn lists(names: &'static [&'static str], name: &str) -> (r: bool)
    ensures
        r == str_views(names@).contains(name@),
{
    for i in 0..names.len()
        invariant
            forall|j: int| 0 <= j < i ==> (#[trigger] str_views(names@)[j]) != name@,
    {
        if same(names[i], name) {
            assert(str_views(names@)[i as int] == name@);
            return true;
        }
    }
    false
}

/// The plugin that was registered first is the one that is found: another behind it is found only
/// where there was none before.
pub proof fn law_the_first_registered_is_found(
    extractors: Seq<ExtractorSlot>,
    reducers: Seq<ReducerSlot>,
    emitters: Seq<EmitterSlot>,
    x: ExtractorSlot,
    y: ReducerSlot,
    z: EmitterSlot,
    key: Seq<char>,
    profile: Profile,
    format: OutputFormat,
    i: int,
)
    ensures
        first_extractor(extractors.push(x), key, i) <==> if no_extractor(extractors, key) {
            i == extractors.len() && x.plugin.handles().contains(key)
        } else {
            first_extractor(extractors, key, i)
        },
        first_reducer(reducers.push(y), profile, i) <==> if no_reducer(reducers, profile) {
            i == reducers.len() && y.plugin.serves() == profile
        } else {
            first_reducer(reducers, profile, i)
        },
        first_emitter(emitters.push(z), format, i) <==> if no_emitter(emitters, format) {
            i == emitters.len() && z.plugin.writes() == format
        } else {
            first_emitter(emitters, format, i)
        },
{
    let (e, r, w) = (extractors.push(x), reducers.push(y), emitters.push(z));
    assert(forall|j: int| 0 <= j < extractors.len() ==> #[trigger] e[j] == extractors[j]);
    assert(forall|j: int| 0 <= j < extractors.len() ==> e[j] == #[trigger] extractors[j]);
    assert(forall|j: int| 0 <= j < reducers.len() ==> #[trigger] r[j] == reducers[j]);
    assert(forall|j: int| 0 <= j < reducers.len() ==> r[j] == #[trigger] reducers[j]);
    assert(forall|j: int| 0 <= j < emitters.len() ==> #[trigger] w[j] == emitters[j]);
    assert(forall|j: int| 0 <= j < emitters.len() ==> w[j] == #[trigger] emitters[j]);
    assert(e.last() == x && r.last() == y && w.last() == z);
}

} // verus!
