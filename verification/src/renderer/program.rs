//! A linked shader program: its OpenGL name and the cache of uniform
//! locations that were looked up for it.
//!
//! The OpenGL calls themselves (creating, linking, querying, setting and
//! deleting) are made by the caller; this module holds the state and takes
//! the decisions between those calls.
use vstd::prelude::*;

verus! {

/// The uniform cache as a map from uniform name to location.
pub open spec fn cache_map(entries: Seq<(String, i32)>) -> Map<Seq<char>, i32>
    decreases entries.len(),
{
    if entries.len() == 0 {
        Map::empty()
    } else {
        cache_map(entries.drop_last()).insert(entries.last().0@, entries.last().1)
    }
}

/// No uniform name occurs twice in the cache.
pub open spec fn distinct_names(entries: Seq<(String, i32)>) -> bool {
    forall|i: int, j: int|
        0 <= i < entries.len() && 0 <= j < entries.len() && i != j ==> entries[i].0@ != entries[j].0@
}

/// Every cache entry is reached through its name, and every name of the map
/// comes from an entry.
proof fn lemma_cache_map(entries: Seq<(String, i32)>)
    requires
        distinct_names(entries),
    ensures
        forall|i: int|
            0 <= i < entries.len() ==> cache_map(entries).contains_key(#[trigger] entries[i].0@)
                && cache_map(entries)[entries[i].0@] == entries[i].1,
        forall|k: Seq<char>|
            cache_map(entries).contains_key(k) ==> exists|i: int|
                0 <= i < entries.len() && #[trigger] entries[i].0@ == k,
    decreases entries.len(),
{
    if entries.len() > 0 {
        let prefix = entries.drop_last();
        assert(distinct_names(prefix));
        lemma_cache_map(prefix);
        let last = entries.len() - 1;
        assert forall|i: int| 0 <= i < entries.len() implies cache_map(entries).contains_key(
            #[trigger] entries[i].0@,
        ) && cache_map(entries)[entries[i].0@] == entries[i].1 by {
            if i < last {
                assert(prefix[i] == entries[i]);
                assert(entries[i].0@ != entries[last].0@);
            }
        }
        assert forall|k: Seq<char>| cache_map(entries).contains_key(k) implies exists|i: int|
            0 <= i < entries.len() && #[trigger] entries[i].0@ == k by {
            assert(cache_map(entries) == cache_map(prefix).insert(entries[last].0@, entries[last].1));
            if k != entries[last].0@ {
                assert(cache_map(prefix).contains_key(k));
                let i = choose|i: int| 0 <= i < prefix.len() && #[trigger] prefix[i].0@ == k;
                assert(prefix[i] == entries[i]);
                assert(entries[i].0@ == k);
            } else {
                assert(entries[last].0@ == k);
            }
        }
    }
}

/// A cache as the driver can fill it: no name holds a NUL character (such a
/// name cannot be handed to the driver) and no location is -1.
pub open spec fn cache_ok(cache: Map<Seq<char>, i32>) -> bool {
    forall|k: Seq<char>| #[trigger] cache.contains_key(k) ==> !k.contains('\0') && cache[k] != -1
}

proof fn lemma_cache_ok(entries: Seq<(String, i32)>)
    requires
        distinct_names(entries),
        forall|i: int| 0 <= i < entries.len() ==> #[trigger] entries[i].1 != -1,
        forall|i: int| 0 <= i < entries.len() ==> !(#[trigger] entries[i]).0@.contains('\0'),
    ensures
        cache_ok(cache_map(entries)),
{
    lemma_cache_map(entries);
    assert forall|k: Seq<char>| #[trigger] cache_map(entries).contains_key(k) implies !k.contains('\0')
        && cache_map(entries)[k] != -1 by {
        let i = choose|i: int| 0 <= i < entries.len() && #[trigger] entries[i].0@ == k;
        assert(entries[i].1 != -1);
    }
}

/// The cache after asking for the uniform `name`, where `queried_location`
/// is what the driver answered: an uncached name is added when the answer
/// is not -1; otherwise the cache stays as it was.
pub open spec fn registered(cache: Map<Seq<char>, i32>, name: Seq<char>, queried_location: i32) -> Map<
    Seq<char>,
    i32,
> {
    if !cache.contains_key(name) && queried_location != -1 {
        cache.insert(name, queried_location)
    } else {
        cache
    }
}

/// Registering a uniform never forgets or changes a cached location: the
/// old cache is part of the new one, a name that was cached stays as it was
/// whatever the driver answers again, and the cached location of `name` is
/// the first location found for it.
pub proof fn lemma_registration_keeps_cache(
    cache: Map<Seq<char>, i32>,
    name: Seq<char>,
    queried_location: i32,
)
    ensures
        cache.submap_of(registered(cache, name, queried_location)),
        cache.contains_key(name) ==> registered(cache, name, queried_location) == cache,
        registered(cache, name, queried_location).contains_key(name) ==> registered(
            cache,
            name,
            queried_location,
        )[name] == (if cache.contains_key(name) {
            cache[name]
        } else {
            queried_location
        }),
        forall|other: Seq<char>|
            other != name ==> (registered(cache, name, queried_location).contains_key(other)
                == cache.contains_key(other)),
{
}

/// Asking twice for the same uniform is the same as asking once, as soon as
/// the first answer found it.
pub proof fn lemma_registration_idempotent(
    cache: Map<Seq<char>, i32>,
    name: Seq<char>,
    first: i32,
    second: i32,
)
    requires
        registered(cache, name, first).contains_key(name),
    ensures
        registered(registered(cache, name, first), name, second) == registered(cache, name, first),
{
}

/// A linked program object together with the uniform locations found for it.
pub struct Program {
    id: u32,
    uniforms: Vec<(String, i32)>,
}

impl Program {
    /// Names are cached once each, no cached name holds a NUL character, and
    /// only locations that the driver reported as found (anything but -1)
    /// are cached.
    #[verifier::type_invariant]
    spec fn well_formed(self) -> bool {
        &&& distinct_names(self.uniforms@)
        &&& forall|i: int| 0 <= i < self.uniforms@.len() ==> #[trigger] self.uniforms@[i].1 != -1
        &&& forall|i: int| 0 <= i < self.uniforms@.len() ==> !(#[trigger] self.uniforms@[i]).0@.contains('\0')
    }

    /// The OpenGL name of the program object.
    pub closed spec fn program_id(&self) -> u32 {
        self.id
    }

    /// The cached uniform locations, by uniform name.
    pub closed spec fn uniforms(&self) -> Map<Seq<char>, i32> {
        cache_map(self.uniforms@)
    }

    /// The program that linking produced, when the link status that the
    /// driver reported is not 0 (`GL_FALSE`); `None` when linking failed.
    /// A linked program starts with no cached uniform.
    pub fn linked(program_id: u32, link_status: i32) -> (res: Option<Program>)
        ensures
            res is Some <==> link_status != 0,
            res matches Some(p) ==> p.program_id() == program_id && p.uniforms() == Map::<
                Seq<char>,
                i32,
            >::empty(),
    {
        if link_status == 0 {
            None
        } else {
            let p = Program { id: program_id, uniforms: Vec::new() };
            assert(p.uniforms@ =~= Seq::<(String, i32)>::empty());
            Some(p)
        }
    }

    /// The OpenGL name of the program object.
    pub fn id(&self) -> (res: u32)
        ensures
            res == self.program_id(),
    {
        self.id
    }

    /// Index of the cache entry for `name`.
    #[verifier::loop_isolation(false)]
    fn find(&self, name: &str) -> (res: Option<usize>)
        ensures
            res is None <==> !self.uniforms().contains_key(name@),
            res matches Some(i) ==> i < self.uniforms@.len() && self.uniforms@[i as int].0@ == name@
                && self.uniforms()[name@] == self.uniforms@[i as int].1,
    {
        proof {
            use_type_invariant(self);
            lemma_cache_map(self.uniforms@);
        }
        let key = name.to_owned();
        let len = self.uniforms.len();
        let mut i: usize = 0;
        while i < len
            invariant
                len == self.uniforms@.len(),
                i <= len,
                key@ == name@,
                forall|j: int| 0 <= j < i ==> self.uniforms@[j].0@ != name@,
            decreases len - i,
        {
            if self.uniforms[i].0 == key {
                return Some(i);
            }
            i = i + 1;
        }
        None
    }

    /// The cached location of the uniform `name`, if it was looked up and found.
    pub fn cached_location(&self, name: &str) -> (res: Option<i32>)
        ensures
            res == (if self.uniforms().contains_key(name@) {
                Some(self.uniforms()[name@])
            } else {
                None
            }),
            res matches Some(location) ==> location != -1,
            cache_ok(self.uniforms()),
    {
        proof {
            use_type_invariant(self);
            lemma_cache_ok(self.uniforms@);
        }
        match self.find(name) {
            Some(i) => Some(self.uniforms[i].1),
            None => None,
        }
    }

    /// Whether the location of `name` still has to be asked of the driver
    /// (it is not cached yet).
    pub fn needs_location_query(&self, name: &str) -> (res: bool)
        ensures
            res == !self.uniforms().contains_key(name@),
    {
        self.find(name).is_none()
    }

    /// Makes sure that the location of `name` is cached. `queried_location`
    /// is what `glGetUniformLocation` returned for `name`; it is consulted
    /// only when `name` is not cached yet, and cached when it is not -1.
    /// Returns whether `name` is cached afterwards. A name that holds a NUL
    /// character cannot be asked of the driver and is not accepted.
    pub fn register_uniform(&mut self, name: &str, queried_location: i32) -> (res: bool)
        requires
            !name@.contains('\0'),
        ensures
            final(self).program_id() == old(self).program_id(),
            cache_ok(final(self).uniforms()),
            res == (old(self).uniforms().contains_key(name@) || queried_location != -1),
            final(self).uniforms() == registered(old(self).uniforms(), name@, queried_location),
            res <==> final(self).uniforms().contains_key(name@),
    {
        proof {
            use_type_invariant(&*self);
        }
        if self.find(name).is_none() {
            if queried_location != -1 {
                let ghost before = self.uniforms@;
                proof {
                    lemma_cache_map(before);
                    assert forall|i: int| 0 <= i < before.len() implies before[i].0@ != name@ by {
                        assert(cache_map(before).contains_key(before[i].0@));
                    }
                }
                let entry = (name.to_owned(), queried_location);
                let mut entries = Vec::new();
                std::mem::swap(&mut entries, &mut self.uniforms);
                entries.push(entry);
                assert(entries@.drop_last() == before);
                self.uniforms = entries;
            } else {
                proof {
                    lemma_cache_ok(self.uniforms@);
                }
                return false;
            }
        }
        proof {
            use_type_invariant(&*self);
            lemma_cache_ok(self.uniforms@);
        }
        true
    }

    /// Sets the integer uniform `name` to `value`: makes sure its location is
    /// cached as `register_uniform` does, and returns the location and value
    /// to hand to `glUniform1i`, or `None` when the uniform does not exist.
    /// A name that holds a NUL character is not accepted.
    pub fn set_i32(&mut self, name: &str, value: i32, queried_location: i32) -> (res: Option<(i32, i32)>)
        requires
            !name@.contains('\0'),
        ensures
            final(self).program_id() == old(self).program_id(),
            cache_ok(final(self).uniforms()),
            final(self).uniforms() == registered(old(self).uniforms(), name@, queried_location),
            res == (if final(self).uniforms().contains_key(name@) {
                Some((final(self).uniforms()[name@], value))
            } else {
                None
            }),
    {
        if self.register_uniform(name, queried_location) {
            match self.cached_location(name) {
                Some(location) => Some((location, value)),
                None => None,
            }
        } else {
            None
        }
    }
}

/// Whether `name` can be handed to the driver as a uniform name: it holds
/// no NUL character.
pub fn is_valid_uniform_name(name: &str) -> (res: bool)
    ensures
        res == !name@.contains('\0'),
{
    broadcast use vstd::string::group_string_axioms;

    for c in it: name.chars()
        invariant
            it.seq() == name@,
            forall|j: int| 0 <= j < it.index() ==> name@[j] != '\0',
    {
        if c == '\0' {
            return false;
        }
    }
    true
}

/// The two shader files that make up the program `name`: the vertex shader
/// `name.vert` and the fragment shader `name.frag`, in that order.
pub fn shader_file_names(name: &str) -> (res: Vec<String>)
    ensures
        res@.len() == 2,
        res@[0]@ == name@ + ".vert"@,
        res@[1]@ == name@ + ".frag"@,
{
    let vert = name.to_owned().concat(".vert");
    let frag = name.to_owned().concat(".frag");
    let mut res = Vec::new();
    res.push(vert);
    res.push(frag);
    res
}

} // verus!
