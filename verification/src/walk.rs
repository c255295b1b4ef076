use vstd::prelude::*;
use vstd::slice::{slice_subrange, slice_to_vec};
use crate::fields::{parse_world_fields, spec_world_fields};
use crate::headers::{decode_header, spec_decode_header, spec_group_header};
use crate::model::{
    DecodeError, GroupHeader, HeaderItem, RecordHeader, UnparsedCell, UnparsedCellM, World, WorldM,
    FLAG_COMPRESSED, FLAG_PERSISTENT, MAX_GROUP_DEPTH, TAG_CELL, TAG_GRUP, TAG_WRLD,
};
use crate::prim::spec_le_u32;

verus! {

/// Whether a group's subtree is passed over as opaque bytes: top-level
/// typed groups whose label is neither the world-group nor the cell-group
/// label, and interior-structure subgroups of a record.
pub open spec fn is_skipped_group(g: GroupHeader) -> bool {
    (g.group_type == 0 && g.label != TAG_WRLD && g.label != TAG_CELL) || g.group_type == 7
}

/// One level of the traversal engine from `pos`, with `budget` bytes of
/// consumption allowed, `world` the enclosing world id and `worlds` /
/// `cells` what has been gathered so far. Each group or record advances
/// the position by exactly what its header declares; a group either has
/// its subtree walked recursively or passed over whole; a cell record's
/// payload is kept raw for later stages; a world record is decoded at
/// once and becomes the enclosing world of the rest of this level. The
/// level ends when the budget is spent or the buffer ends.
pub open spec fn spec_walk(
    s: Seq<u8>,
    pos: int,
    budget: int,
    world: Option<u32>,
    depth: int,
    worlds: Seq<WorldM>,
    cells: Seq<UnparsedCellM>,
) -> Result<(Seq<WorldM>, Seq<UnparsedCellM>, int), DecodeError>
    decreases s.len() - pos,
    when 0 <= pos <= s.len()
{
    if pos >= s.len() || budget <= 0 {
        Ok((worlds, cells, pos))
    } else {
        match spec_decode_header(s, pos) {
            Err(e) => Err(e),
            Ok(HeaderItem::Group(g)) => {
                if g.size < 24 {
                    Err(DecodeError::UnrecognizedHeader)
                } else if pos + g.size > s.len() {
                    Err(DecodeError::TruncatedInput)
                } else if is_skipped_group(g) {
                    spec_walk(s, pos + g.size, budget - g.size, world, depth, worlds, cells)
                } else if depth >= MAX_GROUP_DEPTH {
                    Err(DecodeError::DepthLimitExceeded)
                } else {
                    let inner_world: Option<u32> = if g.group_type == 0 {
                        None
                    } else {
                        world
                    };
                    match spec_walk(s, pos + 24, g.size - 24, inner_world, depth + 1, worlds, cells) {
                        Err(e) => Err(e),
                        Ok((ws2, cs2, _)) => spec_walk(
                            s,
                            pos + g.size,
                            budget - g.size,
                            inner_world,
                            depth,
                            ws2,
                            cs2,
                        ),
                    }
                }
            },
            Ok(HeaderItem::Record(rh)) => {
                let body = pos + 24;
                if body + rh.size > s.len() {
                    Err(DecodeError::TruncatedInput)
                } else {
                    let next = body + rh.size;
                    let budget2 = budget - rh.size - 24;
                    if rh.record_type == TAG_CELL {
                        let cell = UnparsedCellM {
                            form_id: rh.id,
                            world_form_id: world,
                            is_compressed: rh.flags & FLAG_COMPRESSED != 0,
                            is_persistent: rh.flags & FLAG_PERSISTENT != 0,
                            data: s.subrange(body, next),
                        };
                        spec_walk(s, next, budget2, world, depth, worlds, cells.push(cell))
                    } else if rh.record_type == TAG_WRLD {
                        match spec_world_fields(s, body, rh.size) {
                            Err(e) => Err(e),
                            Ok((edid, _wend)) => spec_walk(
                                s,
                                next,
                                budget2,
                                Some(rh.id),
                                depth,
                                worlds.push(WorldM { form_id: rh.id, editor_id: edid }),
                                cells,
                            ),
                        }
                    } else {
                        spec_walk(s, next, budget2, world, depth, worlds, cells)
                    }
                }
            },
        }
    }
}

/// Walks one level of groups and records, appending what it finds to
/// `worlds` and `cells`, and returns the position where the level ended.
#[verifier::loop_isolation(false)]
#[verifier::rlimit(100)]
pub(crate) fn walk(
    s: &[u8],
    start: usize,
    budget0: u64,
    world0: Option<u32>,
    depth: u32,
    worlds: &mut Vec<World>,
    cells: &mut Vec<UnparsedCell>,
) -> (r: Result<usize, DecodeError>)
    requires
        start <= s@.len(),
        4 * s@.len() <= usize::MAX,
    ensures
        match r {
            Ok(end) => spec_walk(
                s@,
                start as int,
                budget0 as int,
                world0,
                depth as int,
                old(worlds).deep_view(),
                old(cells).deep_view(),
            ) == Ok::<(Seq<WorldM>, Seq<UnparsedCellM>, int), DecodeError>(
                (final(worlds).deep_view(), final(cells).deep_view(), end as int),
            ),
            Err(e) => spec_walk(
                s@,
                start as int,
                budget0 as int,
                world0,
                depth as int,
                old(worlds).deep_view(),
                old(cells).deep_view(),
            ) == Err::<(Seq<WorldM>, Seq<UnparsedCellM>, int), DecodeError>(e),
        },
    decreases s@.len() - start,
{
    let n = s.len();
    let mut pos: usize = start;
    let mut budget: u64 = budget0;
    let ghost mut gbudget: int = budget0 as int;
    let mut world: Option<u32> = world0;
    while pos < n && budget > 0
        invariant
            start <= pos <= n,
            gbudget > 0 ==> budget == gbudget,
            gbudget <= 0 ==> budget == 0,
            spec_walk(
                s@,
                start as int,
                budget0 as int,
                world0,
                depth as int,
                old(worlds).deep_view(),
                old(cells).deep_view(),
            ) == spec_walk(
                s@,
                pos as int,
                gbudget,
                world,
                depth as int,
                worlds.deep_view(),
                cells.deep_view(),
            ),
        decreases s@.len() - pos,
    {
        let ghost prev = spec_walk(
            s@,
            pos as int,
            gbudget,
            world,
            depth as int,
            worlds.deep_view(),
            cells.deep_view(),
        );
        let h = match decode_header(s, pos) {
            Ok(h) => h,
            Err(e) => {
                return Err(e);
            },
        };
        let step: u64;
        match h {
            HeaderItem::Group(g) => {
                if g.size < 24 {
                    return Err(DecodeError::UnrecognizedHeader);
                }
                if g.size as usize > n - pos {
                    return Err(DecodeError::TruncatedInput);
                }
                let skipped = (g.group_type == 0 && g.label != TAG_WRLD && g.label != TAG_CELL)
                    || g.group_type == 7;
                if !skipped {
                    if depth >= MAX_GROUP_DEPTH {
                        return Err(DecodeError::DepthLimitExceeded);
                    }
                    let inner_world: Option<u32> = if g.group_type == 0 {
                        None
                    } else {
                        world
                    };
                    match walk(s, pos + 24, (g.size - 24) as u64, inner_world, depth + 1, worlds, cells) {
                        Ok(_) => {},
                        Err(e) => {
                            return Err(e);
                        },
                    }
                    world = inner_world;
                }
                pos = pos + g.size as usize;
                step = g.size as u64;
            },
            HeaderItem::Record(rh) => {
                let body = pos + 24;
                if rh.size as usize > n - body {
                    return Err(DecodeError::TruncatedInput);
                }
                let next = body + rh.size as usize;
                if rh.record_type == TAG_CELL {
                    let data = slice_to_vec(slice_subrange(s, body, next));
                    let ghost cs0 = cells.deep_view();
                    let ghost cm = UnparsedCellM {
                        form_id: rh.id,
                        world_form_id: world,
                        is_compressed: rh.flags & FLAG_COMPRESSED != 0,
                        is_persistent: rh.flags & FLAG_PERSISTENT != 0,
                        data: s@.subrange(body as int, next as int),
                    };
                    proof {
                        assert(data.deep_view() =~= s@.subrange(body as int, next as int));
                    }
                    cells.push(
                        UnparsedCell {
                            form_id: rh.id,
                            world_form_id: world,
                            is_compressed: rh.flags & FLAG_COMPRESSED != 0,
                            is_persistent: rh.flags & FLAG_PERSISTENT != 0,
                            data,
                        },
                    );
                    proof {
                        assert(cells.deep_view() =~= cs0.push(cm));
                    }
                } else if rh.record_type == TAG_WRLD {
                    match parse_world_fields(s, body, rh.size) {
                        Ok((editor_id, _wend)) => {
                            let ghost ws0 = worlds.deep_view();
                            let ghost wm = WorldM { form_id: rh.id, editor_id: editor_id@ };
                            worlds.push(World { form_id: rh.id, editor_id });
                            proof {
                                assert(worlds.deep_view() =~= ws0.push(wm));
                            }
                            world = Some(rh.id);
                        },
                        Err(e) => {
                            return Err(e);
                        },
                    }
                }
                pos = next;
                step = rh.size as u64 + 24;
            },
        }
        proof {
            gbudget = gbudget - step;
        }
        if step >= budget {
            budget = 0;
        } else {
            budget = budget - step;
        }
        proof {
            assert(prev == spec_walk(
                s@,
                pos as int,
                gbudget,
                world,
                depth as int,
                worlds.deep_view(),
                cells.deep_view(),
            ));
        }
    }
    Ok(pos)
}

/// Whatever a group's type and label decide, traversal resumes exactly at
/// the group's end, the position of its header plus its declared size:
/// the subtree consumes exactly `size - 24` bytes whether it was walked
/// into or passed over. The continuation carries the enclosing world
/// reset by a top-level typed group, and whatever a walked subtree
/// gathered.
pub proof fn lemma_group_subtree_consumes_declared(
    s: Seq<u8>,
    pos: int,
    budget: int,
    world: Option<u32>,
    depth: int,
    worlds: Seq<WorldM>,
    cells: Seq<UnparsedCellM>,
)
    requires
        0 <= pos < s.len(),
        budget > 0,
        pos + 24 <= s.len(),
        spec_le_u32(s, pos) == TAG_GRUP,
        spec_walk(s, pos, budget, world, depth, worlds, cells) is Ok,
    ensures
        ({
            let g = spec_group_header(s, pos);
            &&& 24 <= g.size
            &&& pos + g.size <= s.len()
            &&& (is_skipped_group(g) ==> spec_walk(s, pos, budget, world, depth, worlds, cells)
                == spec_walk(s, pos + g.size, budget - g.size, world, depth, worlds, cells))
            &&& (!is_skipped_group(g) ==> ({
                let inner_world: Option<u32> = if g.group_type == 0 {
                    None
                } else {
                    world
                };
                let inner = spec_walk(s, pos + 24, g.size - 24, inner_world, depth + 1, worlds, cells);
                &&& depth < MAX_GROUP_DEPTH
                &&& inner is Ok
                &&& spec_walk(s, pos, budget, world, depth, worlds, cells) == spec_walk(
                    s,
                    pos + g.size,
                    budget - g.size,
                    inner_world,
                    depth,
                    inner->Ok_0.0,
                    inner->Ok_0.1,
                )
            }))
        }),
{
}

/// Whether a cell's world back-reference, if set, names a world among
/// `worlds`.
pub open spec fn cell_linked(c: UnparsedCellM, worlds: Seq<WorldM>) -> bool {
    match c.world_form_id {
        None => true,
        Some(id) => exists|j: int| 0 <= j < worlds.len() && worlds[j].form_id == id,
    }
}

/// Whether an enclosing-world id, if set, names a world among `worlds`.
pub open spec fn world_known(world: Option<u32>, worlds: Seq<WorldM>) -> bool {
    match world {
        None => true,
        Some(id) => exists|j: int| 0 <= j < worlds.len() && worlds[j].form_id == id,
    }
}

/// A cell linked into a world list stays linked when the list grows at
/// the end.
proof fn lemma_linked_extend(cells: Seq<UnparsedCellM>, worlds: Seq<WorldM>, ws2: Seq<WorldM>)
    requires
        worlds.len() <= ws2.len(),
        forall|j: int| 0 <= j < worlds.len() ==> ws2[j] == worlds[j],
        forall|i: int| 0 <= i < cells.len() ==> cell_linked(#[trigger] cells[i], worlds),
    ensures
        forall|i: int| 0 <= i < cells.len() ==> cell_linked(#[trigger] cells[i], ws2),
{
    assert forall|i: int| 0 <= i < cells.len() implies cell_linked(#[trigger] cells[i], ws2) by {
        if cells[i].world_form_id is Some {
            let j = choose|j: int|
                0 <= j < worlds.len() && worlds[j].form_id == cells[i].world_form_id->Some_0;
            assert(ws2[j] == worlds[j]);
        }
    }
}

/// An enclosing-world id known to a world list stays known when the list
/// grows at the end.
proof fn lemma_known_extend(world: Option<u32>, worlds: Seq<WorldM>, ws2: Seq<WorldM>)
    requires
        worlds.len() <= ws2.len(),
        forall|j: int| 0 <= j < worlds.len() ==> ws2[j] == worlds[j],
        world_known(world, worlds),
    ensures
        world_known(world, ws2),
{
    if world is Some {
        let j = choose|j: int| 0 <= j < worlds.len() && worlds[j].form_id == world->Some_0;
        assert(ws2[j] == worlds[j]);
    }
}

/// Scoping of the enclosing world: traversal only extends the gathered
/// worlds, and every cell it gathers either carries no world
/// back-reference — it stood outside any world subtree, or after a
/// top-level group reset the context — or carries the form id of a world
/// that traversal has seen.
#[verifier::spinoff_prover]
pub proof fn lemma_walk_world_scoping(
    s: Seq<u8>,
    pos: int,
    budget: int,
    world: Option<u32>,
    depth: int,
    worlds: Seq<WorldM>,
    cells: Seq<UnparsedCellM>,
)
    requires
        0 <= pos <= s.len(),
        world_known(world, worlds),
        forall|i: int| 0 <= i < cells.len() ==> cell_linked(#[trigger] cells[i], worlds),
        spec_walk(s, pos, budget, world, depth, worlds, cells) is Ok,
    ensures
        ({
            let out = spec_walk(s, pos, budget, world, depth, worlds, cells)->Ok_0;
            &&& worlds.len() <= out.0.len()
            &&& forall|j: int| 0 <= j < worlds.len() ==> out.0[j] == worlds[j]
            &&& forall|i: int| 0 <= i < out.1.len() ==> cell_linked(#[trigger] out.1[i], out.0)
        }),
    decreases s.len() - pos, 1int,
{
    if pos >= s.len() || budget <= 0 {
    } else {
        match spec_decode_header(s, pos) {
            Err(_) => {},
            Ok(HeaderItem::Group(g)) => {
                lemma_walk_scoping_group(s, pos, budget, world, depth, worlds, cells, g);
            },
            Ok(HeaderItem::Record(rh)) => {
                lemma_walk_scoping_record(s, pos, budget, world, depth, worlds, cells, rh);
            },
        }
    }
}

/// The group case of the world-scoping induction.
#[verifier::spinoff_prover]
#[verifier::rlimit(100)]
proof fn lemma_walk_scoping_group(
    s: Seq<u8>,
    pos: int,
    budget: int,
    world: Option<u32>,
    depth: int,
    worlds: Seq<WorldM>,
    cells: Seq<UnparsedCellM>,
    g: GroupHeader,
)
    requires
        0 <= pos < s.len(),
        budget > 0,
        spec_decode_header(s, pos) == Ok::<HeaderItem, DecodeError>(HeaderItem::Group(g)),
        world_known(world, worlds),
        forall|i: int| 0 <= i < cells.len() ==> cell_linked(#[trigger] cells[i], worlds),
        spec_walk(s, pos, budget, world, depth, worlds, cells) is Ok,
    ensures
        ({
            let out = spec_walk(s, pos, budget, world, depth, worlds, cells)->Ok_0;
            &&& worlds.len() <= out.0.len()
            &&& forall|j: int| 0 <= j < worlds.len() ==> out.0[j] == worlds[j]
            &&& forall|i: int| 0 <= i < out.1.len() ==> cell_linked(#[trigger] out.1[i], out.0)
        }),
    decreases s.len() - pos, 0int,
{
    if g.size < 24 || pos + g.size > s.len() {
    } else if is_skipped_group(g) {
        lemma_walk_world_scoping(s, pos + g.size, budget - g.size, world, depth, worlds, cells);
    } else if depth >= MAX_GROUP_DEPTH {
    } else {
        let inner_world: Option<u32> = if g.group_type == 0 {
            None
        } else {
            world
        };
        let mid = spec_walk(s, pos + 24, g.size - 24, inner_world, depth + 1, worlds, cells);
        if mid is Ok {
            lemma_walk_world_scoping(s, pos + 24, g.size - 24, inner_world, depth + 1, worlds, cells);
            let ws2 = mid->Ok_0.0;
            let cs2 = mid->Ok_0.1;
            lemma_known_extend(inner_world, worlds, ws2);
            lemma_walk_world_scoping(s, pos + g.size, budget - g.size, inner_world, depth, ws2, cs2);
        }
    }
}

/// The record case of the world-scoping induction.
#[verifier::spinoff_prover]
#[verifier::rlimit(100)]
proof fn lemma_walk_scoping_record(
    s: Seq<u8>,
    pos: int,
    budget: int,
    world: Option<u32>,
    depth: int,
    worlds: Seq<WorldM>,
    cells: Seq<UnparsedCellM>,
    rh: RecordHeader,
)
    requires
        0 <= pos < s.len(),
        budget > 0,
        spec_decode_header(s, pos) == Ok::<HeaderItem, DecodeError>(HeaderItem::Record(rh)),
        world_known(world, worlds),
        forall|i: int| 0 <= i < cells.len() ==> cell_linked(#[trigger] cells[i], worlds),
        spec_walk(s, pos, budget, world, depth, worlds, cells) is Ok,
    ensures
        ({
            let out = spec_walk(s, pos, budget, world, depth, worlds, cells)->Ok_0;
            &&& worlds.len() <= out.0.len()
            &&& forall|j: int| 0 <= j < worlds.len() ==> out.0[j] == worlds[j]
            &&& forall|i: int| 0 <= i < out.1.len() ==> cell_linked(#[trigger] out.1[i], out.0)
        }),
    decreases s.len() - pos, 0int,
{
    let body = pos + 24;
    if body + rh.size > s.len() {
        assert(spec_walk(s, pos, budget, world, depth, worlds, cells) == Err::<
            (Seq<WorldM>, Seq<UnparsedCellM>, int),
            DecodeError,
        >(DecodeError::TruncatedInput));
    } else {
        let next = body + rh.size;
        let budget2 = budget - rh.size - 24;
        if rh.record_type == TAG_CELL {
            let cell = UnparsedCellM {
                form_id: rh.id,
                world_form_id: world,
                is_compressed: rh.flags & FLAG_COMPRESSED != 0,
                is_persistent: rh.flags & FLAG_PERSISTENT != 0,
                data: s.subrange(body, next),
            };
            let cs2 = cells.push(cell);
            assert forall|i: int| 0 <= i < cs2.len() implies cell_linked(
                #[trigger] cs2[i],
                worlds,
            ) by {
                if i < cells.len() {
                    assert(cs2[i] == cells[i]);
                } else {
                    assert(cs2[i] == cell);
                }
            }
            assert(spec_walk(s, pos, budget, world, depth, worlds, cells) == spec_walk(
                s,
                next,
                budget2,
                world,
                depth,
                worlds,
                cs2,
            ));
            lemma_walk_world_scoping(s, next, budget2, world, depth, worlds, cs2);
        } else if rh.record_type == TAG_WRLD {
            if spec_world_fields(s, body, rh.size) is Ok {
                let edid = spec_world_fields(s, body, rh.size)->Ok_0.0;
                let ws2 = worlds.push(WorldM { form_id: rh.id, editor_id: edid });
                assert(ws2[worlds.len() as int].form_id == rh.id);
                lemma_linked_extend(cells, worlds, ws2);
                assert(spec_walk(s, pos, budget, world, depth, worlds, cells) == spec_walk(
                    s,
                    next,
                    budget2,
                    Some(rh.id),
                    depth,
                    ws2,
                    cells,
                ));
                lemma_walk_world_scoping(s, next, budget2, Some(rh.id), depth, ws2, cells);
                let out = spec_walk(s, pos, budget, world, depth, worlds, cells)->Ok_0;
                assert forall|j: int| 0 <= j < worlds.len() implies out.0[j] == worlds[j] by {
                    assert(ws2[j] == worlds[j]);
                }
            } else {
                assert(spec_walk(s, pos, budget, world, depth, worlds, cells) is Err);
            }
        } else {
            assert(spec_walk(s, pos, budget, world, depth, worlds, cells) == spec_walk(
                s,
                next,
                budget2,
                world,
                depth,
                worlds,
                cells,
            ));
            lemma_walk_world_scoping(s, next, budget2, world, depth, worlds, cells);
        }
    }
}

} // verus!
