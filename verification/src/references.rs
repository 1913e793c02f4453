//! A rewriter for values that are lists of entity identities.

use crate::entity::{entries, mapped_entity, no_entries, MapEntities, MapEntitiesError};
use bevy::ecs::entity::EntityMap;
use vstd::bytes::{spec_u32_from_le_bytes, spec_u32_to_le_bytes, u32_from_le_bytes, u32_to_le_bytes};
use vstd::prelude::*;
use vstd::slice::slice_subrange;

verus! {

/// The rewriter for values that hold entity identities one after the other,
/// each as four bytes, lowest byte first. Bytes at the end that do not make
/// up an identity are no reference and stay as they are.
pub struct EntityReferences {
    /// Whether an identity without an entry in the entity map is an error.
    /// Where it is none, such an identity stays as it is.
    pub strict: bool,
}

/// A result with `prefix` put before its bytes.
pub open spec fn prepend(prefix: Seq<u8>, res: Result<Seq<u8>, MapEntitiesError>) -> Result<
    Seq<u8>,
    MapEntitiesError,
> {
    match res {
        Ok(rest) => Ok(prefix + rest),
        Err(e) => Err(e),
    }
}

/// The bytes of `data` from the index `from` on with every identity
/// replaced by what `entity_map` maps it to. An identity without an entry
/// stays, or is the error where `strict` holds; the first such identity
/// from the front counts.
pub open spec fn map_references_from(
    data: Seq<u8>,
    entity_map: Map<u32, u32>,
    strict: bool,
    from: int,
) -> Result<Seq<u8>, MapEntitiesError>
    decreases data.len() - from,
{
    if from < 0 || from + 4 > data.len() {
        Ok(data.skip(from))
    } else {
        let bytes = data.subrange(from, from + 4);
        let entity = spec_u32_from_le_bytes(bytes);
        if entity_map.contains_key(entity) {
            prepend(
                spec_u32_to_le_bytes(entity_map[entity]),
                map_references_from(data, entity_map, strict, from + 4),
            )
        } else if strict {
            Err(MapEntitiesError::EntityNotFound(entity))
        } else {
            prepend(bytes, map_references_from(data, entity_map, strict, from + 4))
        }
    }
}

/// Under an empty entity map, a rewriter that is not strict changes nothing.
pub proof fn lemma_references_unmapped(data: Seq<u8>, from: int)
    requires
        0 <= from <= data.len(),
    ensures
        map_references_from(data, no_entries(), false, from) == Ok::<
            Seq<u8>,
            MapEntitiesError,
        >(data.skip(from)),
    decreases data.len() - from,
{
    if from + 4 <= data.len() {
        lemma_references_unmapped(data, from + 4);
        assert(data.subrange(from, from + 4) + data.skip(from + 4) =~= data.skip(from));
    }
}

impl MapEntities for EntityReferences {
    open spec fn mapped(&self, data: Seq<u8>, entity_map: Map<u32, u32>) -> Result<
        Seq<u8>,
        MapEntitiesError,
    > {
        map_references_from(data, entity_map, self.strict, 0)
    }

    fn map_entities(&self, data: &Vec<u8>, entity_map: &EntityMap) -> (res: Result<
        Vec<u8>,
        MapEntitiesError,
    >) {
        let ghost goal = map_references_from(data@, entries(*entity_map), self.strict, 0);
        let mut out: Vec<u8> = Vec::new();
        let mut i: usize = 0;
        assert(out@ + data@.skip(0) =~= data@);
        while i < data.len() && data.len() - i >= 4
            invariant
                i <= data.len(),
                goal == map_references_from(data@, entries(*entity_map), self.strict, 0),
                prepend(out@, map_references_from(data@, entries(*entity_map), self.strict, i as int))
                    == goal,
            decreases data.len() - i,
        {
            let ghost before = out@;
            let ghost rest = map_references_from(data@, entries(*entity_map), self.strict, i as int + 4);
            let bytes = slice_subrange(data.as_slice(), i, i + 4);
            let entity = u32_from_le_bytes(bytes);
            match mapped_entity(entity_map, entity) {
                Some(to) => {
                    let mut image = u32_to_le_bytes(to);
                    out.append(&mut image);
                    assert(prepend(out@, rest) == prepend(
                        before,
                        prepend(spec_u32_to_le_bytes(to), rest),
                    )) by {
                        if let Ok(r) = rest {
                            assert(out@ + r =~= before + (spec_u32_to_le_bytes(to) + r));
                        }
                    }
                },
                None => {
                    if self.strict {
                        return Err(MapEntitiesError::EntityNotFound(entity));
                    }
                    let mut k: usize = 0;
                    while k < 4
                        invariant
                            k <= 4,
                            i + 4 <= data.len(),
                            out@ == before + data@.subrange(i as int, i as int + k as int),
                        decreases 4 - k,
                    {
                        out.push(data[i + k]);
                        k += 1;
                        assert(out@ =~= before + data@.subrange(i as int, i as int + k as int));
                    }
                    assert(prepend(out@, rest) == prepend(before, prepend(bytes@, rest))) by {
                        if let Ok(r) = rest {
                            assert(out@ + r =~= before + (bytes@ + r));
                        }
                    }
                },
            }
            i += 4;
        }
        while i < data.len()
            invariant
                i <= data.len(),
                data.len() - i < 4 || i == data.len(),
                goal == map_references_from(data@, entries(*entity_map), self.strict, 0),
                goal == Ok::<Seq<u8>, MapEntitiesError>(out@ + data@.skip(i as int)),
            decreases data.len() - i,
        {
            let ghost before = out@;
            out.push(data[i]);
            i += 1;
            assert(out@ + data@.skip(i as int) =~= before + data@.skip(i as int - 1));
        }
        assert(out@ + data@.skip(i as int) =~= out@);
        Ok(out)
    }
}

impl EntityReferences {
    /// A rewriter that keeps identities without an entry in the entity map,
    /// or one that takes them for an error.
    pub fn new(strict: bool) -> (rewriter: EntityReferences)
        ensures
            rewriter.strict == strict,
    {
        EntityReferences { strict }
    }

    /// Under an empty entity map, a rewriter that is not strict leaves every
    /// value as it is.
    pub proof fn lemma_unmapped(&self, data: Seq<u8>)
        requires
            !self.strict,
        ensures
            self.mapped(data, no_entries()) == Ok::<Seq<u8>, MapEntitiesError>(data),
    {
        lemma_references_unmapped(data, 0);
        assert(data.skip(0) =~= data);
    }
}

} // verus!
