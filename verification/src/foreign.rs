//! Declarations of the engine and library types that the world logic carries,
//! and the trusted wrappers around the calls it makes into them.
//!
//! The chunk and vertex maps are the engine's `HashMap`. What a map holds is
//! named by one uninterpreted function per key/value instantiation; every
//! wrapper states its effect on those contents, as the map's source shows it
//! (a hash map keyed by `(i32, i32)`, whose `Eq` and `Hash` are std's).
use crate::planet::meshing::dual_contouring::ChunkBorderVertex;
use crate::planet::startup::Chunk as ClassicChunk;
use crate::planet::world::chunk::Chunk;
use bevy::platform::collections::HashMap;
use vstd::prelude::*;

verus! {

/// An entity handle of the ECS; carried through unchanged, never inspected.
#[verifier::external_type_specification]
#[verifier::external_body]
pub struct ExEntity(bevy::ecs::entity::Entity);

/// A two-dimensional vector of the math library; carried through unchanged, never inspected.
#[verifier::external_type_specification]
#[verifier::external_body]
pub struct ExVec2(bevy::math::Vec2);

/// The engine's hash map.
#[verifier::external_type_specification]
#[verifier::external_body]
#[verifier::reject_recursive_types(K)]
#[verifier::reject_recursive_types(V)]
#[verifier::reject_recursive_types(S)]
pub struct ExHashMap<K, V, S>(bevy::platform::collections::HashMap<K, V, S>);

/// The default hasher of the engine's hash map.
#[verifier::external_type_specification]
#[verifier::external_body]
pub struct ExFixedHasher(bevy::platform::hash::FixedHasher);

/// Perlin noise generator of the `noise` crate.
#[verifier::external_type_specification]
#[verifier::external_body]
pub struct ExPerlin(noise::Perlin);

// ---------------------------------------------------------------------------
// Chunks by chunk coordinates
// ---------------------------------------------------------------------------

/// What a chunk map holds.
pub uninterp spec fn chunk_map_contents(m: HashMap<(i32, i32), Chunk>) -> Map<(i32, i32), Chunk>;

/// `HashMap::new`: an empty map.
#[verifier::external_body]
pub(crate) fn chunk_map_new() -> (r: HashMap<(i32, i32), Chunk>)
    ensures
        chunk_map_contents(r).dom().is_empty(),
{
    HashMap::new()
}

/// `HashMap::get`: the chunk stored under `key`, if any.
#[verifier::external_body]
pub(crate) fn chunk_map_get(m: &HashMap<(i32, i32), Chunk>, key: (i32, i32)) -> (r: Option<&Chunk>)
    ensures
        r == (if chunk_map_contents(*m).dom().contains(key) {
            Some(&chunk_map_contents(*m)[key])
        } else {
            None
        }),
{
    m.get(&key)
}

/// `HashMap::contains_key`: whether a chunk is stored under `key`.
#[verifier::external_body]
pub(crate) fn chunk_map_contains_key(m: &HashMap<(i32, i32), Chunk>, key: (i32, i32)) -> (r: bool)
    ensures
        r == chunk_map_contents(*m).dom().contains(key),
{
    m.contains_key(&key)
}

/// `HashMap::insert`: stores `chunk` under `key`, handing back the chunk it replaces.
#[verifier::external_body]
pub(crate) fn chunk_map_insert(m: &mut HashMap<(i32, i32), Chunk>, key: (i32, i32), chunk: Chunk) -> (r: Option<Chunk>)
    ensures
        chunk_map_contents(*final(m)) == chunk_map_contents(*old(m)).insert(key, chunk),
        r == (if chunk_map_contents(*old(m)).dom().contains(key) {
            Some(chunk_map_contents(*old(m))[key])
        } else {
            None
        }),
{
    m.insert(key, chunk)
}

/// `HashMap::remove`: takes the chunk stored under `key` out of the map.
#[verifier::external_body]
pub(crate) fn chunk_map_remove(m: &mut HashMap<(i32, i32), Chunk>, key: (i32, i32)) -> (r: Option<Chunk>)
    ensures
        chunk_map_contents(*final(m)) == chunk_map_contents(*old(m)).remove(key),
        r == (if chunk_map_contents(*old(m)).dom().contains(key) {
            Some(chunk_map_contents(*old(m))[key])
        } else {
            None
        }),
{
    m.remove(&key)
}

/// `HashMap::len`: the number of stored chunks.
#[verifier::external_body]
pub(crate) fn chunk_map_len(m: &HashMap<(i32, i32), Chunk>) -> (r: usize)
    ensures
        r == chunk_map_contents(*m).len(),
{
    m.len()
}

/// `HashMap::keys`, collected: every key once, in the map's own (unspecified) order.
#[verifier::external_body]
pub(crate) fn chunk_map_keys(m: &HashMap<(i32, i32), Chunk>) -> (r: Vec<(i32, i32)>)
    ensures
        r@.no_duplicates(),
        r@.to_set() == chunk_map_contents(*m).dom(),
{
    m.keys().copied().collect()
}

// ---------------------------------------------------------------------------
// Chunks of the first-generation voxel world
// ---------------------------------------------------------------------------

/// What a chunk map holds.
pub uninterp spec fn classic_chunk_map_contents(m: HashMap<(i32, i32), ClassicChunk>) -> Map<(i32, i32), ClassicChunk>;

/// `HashMap::new`: an empty map.
#[verifier::external_body]
pub(crate) fn classic_chunk_map_new() -> (r: HashMap<(i32, i32), ClassicChunk>)
    ensures
        classic_chunk_map_contents(r).dom().is_empty(),
{
    HashMap::new()
}

/// `HashMap::get`: the chunk stored under `key`, if any.
#[verifier::external_body]
pub(crate) fn classic_chunk_map_get(m: &HashMap<(i32, i32), ClassicChunk>, key: (i32, i32)) -> (r: Option<&ClassicChunk>)
    ensures
        r == (if classic_chunk_map_contents(*m).dom().contains(key) {
            Some(&classic_chunk_map_contents(*m)[key])
        } else {
            None
        }),
{
    m.get(&key)
}

/// `HashMap::contains_key`: whether a chunk is stored under `key`.
#[verifier::external_body]
pub(crate) fn classic_chunk_map_contains_key(m: &HashMap<(i32, i32), ClassicChunk>, key: (i32, i32)) -> (r: bool)
    ensures
        r == classic_chunk_map_contents(*m).dom().contains(key),
{
    m.contains_key(&key)
}

/// `HashMap::insert`: stores `chunk` under `key`, handing back the chunk it replaces.
#[verifier::external_body]
pub(crate) fn classic_chunk_map_insert(m: &mut HashMap<(i32, i32), ClassicChunk>, key: (i32, i32), chunk: ClassicChunk) -> (r: Option<ClassicChunk>)
    ensures
        classic_chunk_map_contents(*final(m)) == classic_chunk_map_contents(*old(m)).insert(key, chunk),
        r == (if classic_chunk_map_contents(*old(m)).dom().contains(key) {
            Some(classic_chunk_map_contents(*old(m))[key])
        } else {
            None
        }),
{
    m.insert(key, chunk)
}

/// `HashMap::remove`: takes the chunk stored under `key` out of the map.
#[verifier::external_body]
pub(crate) fn classic_chunk_map_remove(m: &mut HashMap<(i32, i32), ClassicChunk>, key: (i32, i32)) -> (r: Option<ClassicChunk>)
    ensures
        classic_chunk_map_contents(*final(m)) == classic_chunk_map_contents(*old(m)).remove(key),
        r == (if classic_chunk_map_contents(*old(m)).dom().contains(key) {
            Some(classic_chunk_map_contents(*old(m))[key])
        } else {
            None
        }),
{
    m.remove(&key)
}

/// `HashMap::keys`, collected: every key once, in the map's own (unspecified) order.
#[verifier::external_body]
pub(crate) fn classic_chunk_map_keys(m: &HashMap<(i32, i32), ClassicChunk>) -> (r: Vec<(i32, i32)>)
    ensures
        r@.no_duplicates(),
        r@.to_set() == classic_chunk_map_contents(*m).dom(),
{
    m.keys().copied().collect()
}

// ---------------------------------------------------------------------------
// Shared border vertices by snapped coordinates
// ---------------------------------------------------------------------------

/// What a vertex map holds.
pub uninterp spec fn vertex_map_contents(m: HashMap<(i32, i32), ChunkBorderVertex>) -> Map<(i32, i32), ChunkBorderVertex>;

/// `HashMap::new`: an empty map.
#[verifier::external_body]
pub(crate) fn vertex_map_new() -> (r: HashMap<(i32, i32), ChunkBorderVertex>)
    ensures
        vertex_map_contents(r).dom().is_empty(),
{
    HashMap::new()
}

/// `HashMap::get`, copied out: the vertex stored under `key`, if any.
#[verifier::external_body]
pub(crate) fn vertex_map_get(m: &HashMap<(i32, i32), ChunkBorderVertex>, key: (i32, i32)) -> (r: Option<ChunkBorderVertex>)
    ensures
        r == (if vertex_map_contents(*m).dom().contains(key) {
            Some(vertex_map_contents(*m)[key])
        } else {
            None
        }),
{
    m.get(&key).copied()
}

/// `HashMap::insert`: stores `v` under `key`.
#[verifier::external_body]
pub(crate) fn vertex_map_insert(m: &mut HashMap<(i32, i32), ChunkBorderVertex>, key: (i32, i32), v: ChunkBorderVertex)
    ensures
        vertex_map_contents(*final(m)) == vertex_map_contents(*old(m)).insert(key, v),
{
    m.insert(key, v);
}

/// `HashMap::clear`: removes every entry.
#[verifier::external_body]
pub(crate) fn vertex_map_clear(m: &mut HashMap<(i32, i32), ChunkBorderVertex>)
    ensures
        vertex_map_contents(*final(m)).dom().is_empty(),
{
    m.clear()
}

/// `HashMap::iter`, copied out: every entry once, in the map's own (unspecified) order.
#[verifier::external_body]
pub(crate) fn vertex_map_entries(m: &HashMap<(i32, i32), ChunkBorderVertex>) -> (r: Vec<((i32, i32), ChunkBorderVertex)>)
    ensures
        r@.map_values(|e: ((i32, i32), ChunkBorderVertex)| e.0).no_duplicates(),
        r@.map_values(|e: ((i32, i32), ChunkBorderVertex)| e.0).to_set() == vertex_map_contents(*m).dom(),
        forall|i: int| 0 <= i < r@.len() ==> vertex_map_contents(*m)[#[trigger] r@[i].0] == r@[i].1,
{
    m.iter().map(|(k, v)| (*k, *v)).collect()
}

// ---------------------------------------------------------------------------
// Unicode character properties
// ---------------------------------------------------------------------------

/// Whether a character outside ASCII has the Unicode `Uppercase` property.
pub uninterp spec fn unicode_uppercase(c: char) -> bool;

/// Whether a character outside ASCII is alphabetic or numeric in Unicode's sense.
pub uninterp spec fn unicode_alphanumeric(c: char) -> bool;

/// Whether a character has the Unicode `Uppercase` property: among the ASCII
/// characters exactly 'A' to 'Z'; beyond ASCII a table of the standard.
pub open spec fn char_uppercase(c: char) -> bool {
    if (c as u32) < 128 {
        65 <= (c as u32) <= 90
    } else {
        unicode_uppercase(c)
    }
}

/// Whether a character is alphabetic or numeric: among the ASCII characters
/// exactly the letters and the digits; beyond ASCII tables of the standard.
pub open spec fn char_alphanumeric(c: char) -> bool {
    if (c as u32) < 128 {
        (48 <= (c as u32) <= 57) || (65 <= (c as u32) <= 90) || (97 <= (c as u32) <= 122)
    } else {
        unicode_alphanumeric(c)
    }
}

/// `char::is_uppercase`: whether `c` has the Unicode `Uppercase` property.
/// Among ASCII characters these are exactly 'A' to 'Z'; beyond ASCII the
/// property is a table of the Unicode standard, so it is only named here.
#[verifier::external_body]
pub(crate) fn char_is_uppercase(c: char) -> (r: bool)
    ensures
        r == (if (c as u32) < 128 { 65 <= (c as u32) <= 90 } else { unicode_uppercase(c) }),
{
    c.is_uppercase()
}

/// `char::is_alphanumeric`: whether `c` is alphabetic or numeric. Among
/// ASCII characters these are exactly the letters and the digits; beyond
/// ASCII they are tables of the Unicode standard, so they are only named here.
#[verifier::external_body]
pub(crate) fn char_is_alphanumeric(c: char) -> (r: bool)
    ensures
        r == (if (c as u32) < 128 {
            (48 <= (c as u32) <= 57) || (65 <= (c as u32) <= 90) || (97 <= (c as u32) <= 122)
        } else {
            unicode_alphanumeric(c)
        }),
{
    c.is_alphanumeric()
}

// ---------------------------------------------------------------------------
// Noise and randomness
// ---------------------------------------------------------------------------

/// The Perlin generator that `Perlin::new` builds for a seed.
pub uninterp spec fn perlin_for_seed(seed: u32) -> noise::Perlin;

/// `Perlin::new`: a generator determined by its seed alone.
#[verifier::external_body]
pub(crate) fn perlin_new(seed: u32) -> (r: noise::Perlin)
    ensures
        r == perlin_for_seed(seed),
{
    noise::Perlin::new(seed)
}

/// `rand::random::<u64>()`: a value drawn from the thread's generator; nothing
/// is stated of it.
#[verifier::external_body]
pub(crate) fn random_u64() -> u64 {
    rand::random::<u64>()
}

} // verus!
