use vstd::prelude::*;
use vstd::slice::slice_to_vec;
use crate::codecs::{inflate, inflate_of};
use crate::fields::{
    parse_cell, parse_plugin_header, spec_parse_cell, spec_parse_plugin_header,
};
use crate::model::{
    Cell, CellM, DecodeError, Plugin, PluginM, UnparsedCell, UnparsedCellM, World, WorldM,
};
use crate::walk::{cell_linked, lemma_walk_world_scoping, spec_walk, walk};

verus! {

/// A cell record whose header is decoded and whose payload has been
/// decompressed, but whose fields are still undecoded.
pub struct DecompressedCell {
    pub form_id: u32,
    pub world_form_id: Option<u32>,
    pub is_persistent: bool,
    pub data: Vec<u8>,
}

/// Mathematical value of a decompressed cell record.
pub ghost struct DecompressedCellM {
    pub form_id: u32,
    pub world_form_id: Option<u32>,
    pub is_persistent: bool,
    pub data: Seq<u8>,
}

impl DeepView for DecompressedCell {
    type V = DecompressedCellM;

    open spec fn deep_view(&self) -> DecompressedCellM {
        DecompressedCellM {
            form_id: self.form_id,
            world_form_id: self.world_form_id,
            is_persistent: self.is_persistent,
            data: self.data@,
        }
    }
}

/// What normalizing one cell payload yields: a compressed payload loses
/// its 4-byte declared-size prefix — the prefix's value is never read —
/// and the remainder is inflated; an uncompressed payload is kept as it
/// stands. A payload too large for the field decoders' size limit is
/// refused like a rejected stream.
pub open spec fn spec_decompress_cell(c: UnparsedCellM) -> Result<DecompressedCellM, DecodeError> {
    if c.is_compressed {
        if c.data.len() < 4 {
            Err(DecodeError::DecompressionFailed)
        } else {
            match inflate_of(c.data.skip(4)) {
                None => Err(DecodeError::DecompressionFailed),
                Some(d) => if 4 * d.len() <= usize::MAX {
                    Ok(
                        DecompressedCellM {
                            form_id: c.form_id,
                            world_form_id: c.world_form_id,
                            is_persistent: c.is_persistent,
                            data: d,
                        },
                    )
                } else {
                    Err(DecodeError::DecompressionFailed)
                },
            }
        }
    } else {
        if 4 * c.data.len() <= usize::MAX {
            Ok(
                DecompressedCellM {
                    form_id: c.form_id,
                    world_form_id: c.world_form_id,
                    is_persistent: c.is_persistent,
                    data: c.data,
                },
            )
        } else {
            Err(DecodeError::DecompressionFailed)
        }
    }
}

/// Normalizes the payloads of the cells from index `i` on; the first
/// failure aborts the stage.
pub open spec fn spec_decompress_from(cs: Seq<UnparsedCellM>, i: int) -> Result<
    Seq<DecompressedCellM>,
    DecodeError,
>
    decreases cs.len() - i,
    when 0 <= i <= cs.len()
{
    if i >= cs.len() {
        Ok(Seq::empty())
    } else {
        match spec_decompress_cell(cs[i]) {
            Err(e) => Err(e),
            Ok(d) => match spec_decompress_from(cs, i + 1) {
                Err(e) => Err(e),
                Ok(rest) => Ok(seq![d] + rest),
            },
        }
    }
}

/// Normalizes every cell payload, inflating the compressed ones.
#[verifier::loop_isolation(false)]
#[verifier::rlimit(100)]
pub fn decompress_cells(unparsed: &Vec<UnparsedCell>) -> (r: Result<
    Vec<DecompressedCell>,
    DecodeError,
>)
    ensures
        match r {
            Ok(v) => {
                &&& spec_decompress_from(unparsed.deep_view(), 0) == Ok::<
                    Seq<DecompressedCellM>,
                    DecodeError,
                >(v.deep_view())
                &&& forall|k: int| 0 <= k < v@.len() ==> 4 * (#[trigger] v@[k]).data@.len()
                    <= usize::MAX
            },
            Err(e) => spec_decompress_from(unparsed.deep_view(), 0) == Err::<
                Seq<DecompressedCellM>,
                DecodeError,
            >(e),
        },
{
    let ghost cs = unparsed.deep_view();
    let mut out: Vec<DecompressedCell> = Vec::new();
    let mut i: usize = 0;
    proof {
        assert(out.deep_view() =~= Seq::<DecompressedCellM>::empty());
    }
    while i < unparsed.len()
        invariant
            0 <= i <= unparsed.len(),
            spec_decompress_from(cs, 0) == match spec_decompress_from(cs, i as int) {
                Ok(rest) => Ok::<Seq<DecompressedCellM>, DecodeError>(out.deep_view() + rest),
                Err(e) => Err::<Seq<DecompressedCellM>, DecodeError>(e),
            },
            forall|k: int| 0 <= k < out@.len() ==> 4 * (#[trigger] out@[k]).data@.len()
                <= usize::MAX,
        decreases unparsed.len() - i,
    {
        let c = &unparsed[i];
        assert(c.deep_view() == cs[i as int]);
        let ghost out0 = out.deep_view();
        let d: Vec<u8>;
        if c.is_compressed {
            if c.data.len() < 4 {
                return Err(DecodeError::DecompressionFailed);
            }
            proof {
                assert(c.data@.subrange(4, c.data@.len() as int) =~= cs[i as int].data.skip(4));
            }
            match inflate(c.data.as_slice(), 4, c.data.len()) {
                None => {
                    return Err(DecodeError::DecompressionFailed);
                },
                Some(v) => {
                    if 4u128 * (v.len() as u128) > usize::MAX as u128 {
                        return Err(DecodeError::DecompressionFailed);
                    }
                    d = v;
                },
            }
        } else {
            if 4u128 * (c.data.len() as u128) > usize::MAX as u128 {
                return Err(DecodeError::DecompressionFailed);
            }
            d = slice_to_vec(c.data.as_slice());
        }
        let dc = DecompressedCell {
            form_id: c.form_id,
            world_form_id: c.world_form_id,
            is_persistent: c.is_persistent,
            data: d,
        };
        let ghost dm = dc.deep_view();
        proof {
            assert(spec_decompress_cell(cs[i as int]) == Ok::<DecompressedCellM, DecodeError>(dm));
        }
        out.push(dc);
        i = i + 1;
        proof {
            assert(out.deep_view() =~= out0.push(dm));
            if spec_decompress_from(cs, i as int) is Ok {
                let rest = spec_decompress_from(cs, i as int)->Ok_0;
                assert(out0 + (seq![dm] + rest) =~= out.deep_view() + rest);
            }
        }
    }
    Ok(out)
}

/// Decodes the fields of the cells from index `i` on; the first failure
/// aborts the stage.
pub open spec fn spec_parse_cells_from(cs: Seq<DecompressedCellM>, i: int) -> Result<
    Seq<CellM>,
    DecodeError,
>
    decreases cs.len() - i,
    when 0 <= i <= cs.len()
{
    if i >= cs.len() {
        Ok(Seq::empty())
    } else {
        match spec_parse_cell(cs[i].data, cs[i].form_id, cs[i].is_persistent, cs[i].world_form_id) {
            Err(e) => Err(e),
            Ok(c) => match spec_parse_cells_from(cs, i + 1) {
                Err(e) => Err(e),
                Ok(rest) => Ok(seq![c] + rest),
            },
        }
    }
}

/// The plugin decoded from a whole file: the plugin-header record, then
/// one traversal of the remaining bytes gathering worlds and raw cells,
/// then payload normalization and cell field decoding.
pub open spec fn spec_parse_plugin(s: Seq<u8>) -> Result<PluginM, DecodeError> {
    match spec_parse_plugin_header(s) {
        Err(e) => Err(e),
        Ok((hdr, pos)) => match spec_walk(
            s,
            pos,
            s.len() - pos,
            None,
            0,
            Seq::empty(),
            Seq::empty(),
        ) {
            Err(e) => Err(e),
            Ok((ws, ucs, _end)) => match spec_decompress_from(ucs, 0) {
                Err(e) => Err(e),
                Ok(dcs) => match spec_parse_cells_from(dcs, 0) {
                    Err(e) => Err(e),
                    Ok(cells) => Ok(PluginM { header: hdr, worlds: ws, cells }),
                },
            },
        },
    }
}

/// Decodes a plugin file: its header, its worlds and its cells. The size
/// bound is a machine limit of the string decoder, not of the format.
#[verifier::loop_isolation(false)]
#[verifier::rlimit(100)]
pub fn parse_plugin(input: &[u8]) -> (r: Result<Plugin, DecodeError>)
    requires
        4 * input@.len() <= usize::MAX,
    ensures
        match r {
            Ok(p) => spec_parse_plugin(input@) == Ok::<PluginM, DecodeError>(p.deep_view()),
            Err(e) => spec_parse_plugin(input@) == Err::<PluginM, DecodeError>(e),
        },
{
    let (header, pos) = match parse_plugin_header(input) {
        Ok(v) => v,
        Err(e) => {
            return Err(e);
        },
    };
    let mut worlds: Vec<World> = Vec::new();
    let mut cells_raw: Vec<UnparsedCell> = Vec::new();
    proof {
        assert(worlds.deep_view() =~= Seq::<WorldM>::empty());
        assert(cells_raw.deep_view() =~= Seq::<UnparsedCellM>::empty());
    }
    let budget = (input.len() - pos) as u64;
    match walk(input, pos, budget, None, 0, &mut worlds, &mut cells_raw) {
        Ok(_) => {},
        Err(e) => {
            return Err(e);
        },
    }
    let decompressed = match decompress_cells(&cells_raw) {
        Ok(v) => v,
        Err(e) => {
            return Err(e);
        },
    };
    let ghost dcs = decompressed.deep_view();
    let mut cells: Vec<Cell> = Vec::new();
    let mut i: usize = 0;
    proof {
        assert(cells.deep_view() =~= Seq::<CellM>::empty());
    }
    while i < decompressed.len()
        invariant
            0 <= i <= decompressed.len(),
            spec_parse_cells_from(dcs, 0) == match spec_parse_cells_from(dcs, i as int) {
                Ok(rest) => Ok::<Seq<CellM>, DecodeError>(cells.deep_view() + rest),
                Err(e) => Err::<Seq<CellM>, DecodeError>(e),
            },
        decreases decompressed.len() - i,
    {
        let dc = &decompressed[i];
        assert(dc.deep_view() == dcs[i as int]);
        let ghost cells0 = cells.deep_view();
        match parse_cell(dc.data.as_slice(), dc.form_id, dc.is_persistent, dc.world_form_id) {
            Err(e) => {
                return Err(e);
            },
            Ok(c) => {
                let ghost cm = c.deep_view();
                cells.push(c);
                i = i + 1;
                proof {
                    assert(cells.deep_view() =~= cells0.push(cm));
                    if spec_parse_cells_from(dcs, i as int) is Ok {
                        let rest = spec_parse_cells_from(dcs, i as int)->Ok_0;
                        assert(cells0 + (seq![cm] + rest) =~= cells.deep_view() + rest);
                    }
                }
            },
        }
    }
    Ok(Plugin { header, worlds, cells })
}

/// Decoding is deterministic: equal byte sequences decode to equal
/// results, plugin for plugin and error for error.
pub proof fn lemma_decode_deterministic(a: Seq<u8>, b: Seq<u8>)
    requires
        a == b,
    ensures
        spec_parse_plugin(a) == spec_parse_plugin(b),
{
}

/// The 4-byte declared-size prefix of a compressed payload does not
/// influence what the payload decompresses to: two compressed cells that
/// agree on everything past the prefix normalize identically, whatever
/// either prefix holds.
pub proof fn lemma_size_prefix_ignored(c1: UnparsedCellM, c2: UnparsedCellM)
    requires
        c1.is_compressed,
        c2.is_compressed,
        c1.data.len() >= 4,
        c2.data.len() >= 4,
        c1.data.skip(4) == c2.data.skip(4),
        c1.form_id == c2.form_id,
        c1.world_form_id == c2.world_form_id,
        c1.is_persistent == c2.is_persistent,
    ensures
        spec_decompress_cell(c1) == spec_decompress_cell(c2),
{
}

/// Payload normalization changes no cell's identity: it keeps the order,
/// the form ids, the world back-references and the persistence flags.
pub proof fn lemma_decompress_keeps_identity(cs: Seq<UnparsedCellM>, i: int)
    requires
        0 <= i <= cs.len(),
        spec_decompress_from(cs, i) is Ok,
    ensures
        ({
            let out = spec_decompress_from(cs, i)->Ok_0;
            &&& out.len() == cs.len() - i
            &&& forall|k: int| 0 <= k < out.len() ==> {
                &&& (#[trigger] out[k]).form_id == cs[i + k].form_id
                &&& out[k].world_form_id == cs[i + k].world_form_id
                &&& out[k].is_persistent == cs[i + k].is_persistent
            }
        }),
    decreases cs.len() - i,
{
    if i < cs.len() && spec_decompress_cell(cs[i]) is Ok && spec_decompress_from(cs, i + 1) is Ok {
        lemma_decompress_keeps_identity(cs, i + 1);
    }
}

/// Cell field decoding changes no cell's identity: it keeps the order,
/// the form ids, the world back-references and the persistence flags.
pub proof fn lemma_parse_cells_keeps_identity(cs: Seq<DecompressedCellM>, i: int)
    requires
        0 <= i <= cs.len(),
        spec_parse_cells_from(cs, i) is Ok,
    ensures
        ({
            let out = spec_parse_cells_from(cs, i)->Ok_0;
            &&& out.len() == cs.len() - i
            &&& forall|k: int| 0 <= k < out.len() ==> {
                &&& (#[trigger] out[k]).form_id == cs[i + k].form_id
                &&& out[k].world_form_id == cs[i + k].world_form_id
                &&& out[k].is_persistent == cs[i + k].is_persistent
            }
        }),
    decreases cs.len() - i,
{
    if i < cs.len() && spec_parse_cells_from(cs, i + 1) is Ok {
        lemma_parse_cells_keeps_identity(cs, i + 1);
    }
}

/// Scoping of world back-references in a decoded plugin: every cell
/// either has no enclosing world — it stood outside any world subtree,
/// or a new top-level group had reset the context — or names the form id
/// of one of the decoded worlds.
#[verifier::spinoff_prover]
#[verifier::rlimit(100)]
pub proof fn lemma_plugin_world_scoping(s: Seq<u8>)
    requires
        spec_parse_plugin(s) is Ok,
    ensures
        ({
            let p = spec_parse_plugin(s)->Ok_0;
            forall|i: int| 0 <= i < p.cells.len() ==> match (#[trigger] p.cells[i]).world_form_id {
                None => true,
                Some(id) => exists|j: int| 0 <= j < p.worlds.len() && p.worlds[j].form_id == id,
            }
        }),
{
    assert(spec_parse_plugin_header(s) is Ok);
    crate::fields::lemma_plugin_header_end_bounds(s);
    let pos = spec_parse_plugin_header(s)->Ok_0.1;
    let mid = spec_walk(s, pos, s.len() - pos, None, 0, Seq::empty(), Seq::empty());
    assert(mid is Ok);
    let ws = mid->Ok_0.0;
    let ucs = mid->Ok_0.1;
    lemma_walk_world_scoping(s, pos, s.len() - pos, None, 0, Seq::empty(), Seq::empty());
    assert(forall|i: int| 0 <= i < ucs.len() ==> cell_linked(#[trigger] ucs[i], ws));
    assert(spec_decompress_from(ucs, 0) is Ok);
    let dcs = spec_decompress_from(ucs, 0)->Ok_0;
    lemma_decompress_keeps_identity(ucs, 0);
    assert(spec_parse_cells_from(dcs, 0) is Ok);
    let cells = spec_parse_cells_from(dcs, 0)->Ok_0;
    lemma_parse_cells_keeps_identity(dcs, 0);
    let p = spec_parse_plugin(s)->Ok_0;
    assert(p.worlds == ws && p.cells == cells);
    assert forall|i: int| 0 <= i < p.cells.len() implies match (#[trigger] p.cells[i])
        .world_form_id {
        None => true,
        Some(id) => exists|j: int| 0 <= j < p.worlds.len() && p.worlds[j].form_id == id,
    } by {
        assert(cells[i].world_form_id == dcs[i].world_form_id);
        assert(dcs[i].world_form_id == ucs[i].world_form_id);
        assert(cell_linked(ucs[i], ws));
    }
}

} // verus!
