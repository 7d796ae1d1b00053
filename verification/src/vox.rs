use vstd::prelude::*;
use byteorder::ByteOrder;

use crate::material::ColoredMaterial;

verus! {

/// Why a `.vox` file could not be read.
#[derive(Clone, Copy, Debug, PartialEq, Eq, Structural)]
pub enum VoxError {
    /// The data ended in the middle of a field.
    UnexpectedEnd,
    /// A field holds a value the format does not allow.
    InvalidData,
}

/// The MagicaVoxel `.vox` format.
#[derive(Clone, Copy, Debug, Default)]
pub struct VoxFormat;

impl VoxFormat {
    /// The name of the format.
    pub fn name(&self) -> (r: &'static str)
        ensures
            r@ == "MagicaVoxel"@,
    {
        "MagicaVoxel"
    }
}

/// The little-endian `u32` stored at `pos`.
pub open spec fn le_u32(b: Seq<u8>, pos: int) -> int {
    b[pos] + 256 * b[pos + 1] + 65536 * b[pos + 2] + 16777216 * b[pos + 3]
}

/// `LittleEndian::read_u32` of byteorder: the first four bytes of `buf` as a
/// little-endian `u32`. It panics on fewer than four bytes, which the
/// contract rules out.
#[verifier::external_body]
fn read_u32_le(buf: &[u8]) -> (r: u32)
    requires
        buf@.len() >= 4,
    ensures
        r == le_u32(buf@, 0),
{
    byteorder::LittleEndian::read_u32(buf)
}

/// The little-endian `u32` at `pos` of `b`.
fn u32_at(b: &[u8], pos: usize) -> (r: u32)
    requires
        pos + 4 <= b@.len(),
    ensures
        r == le_u32(b@, pos as int),
{
    let n = b.len();
    let r = read_u32_le(&b[pos..pos + 4]);
    proof {
        assert(b@.subrange(pos as int, pos + 4)[0] == b@[pos as int]);
        assert(b@.subrange(pos as int, pos + 4)[1] == b@[pos + 1]);
        assert(b@.subrange(pos as int, pos + 4)[2] == b@[pos + 2]);
        assert(b@.subrange(pos as int, pos + 4)[3] == b@[pos + 3]);
    }
    r
}

/// Size of the content of the chunk whose header starts at `pos`.
pub open spec fn content_size(b: Seq<u8>, pos: int) -> int {
    le_u32(b, pos + 4)
}

/// Size of the children of the chunk whose header starts at `pos`.
pub open spec fn children_size(b: Seq<u8>, pos: int) -> int {
    le_u32(b, pos + 8)
}

/// Where the content of the chunk at `pos` ends and its children begin.
pub open spec fn content_end(b: Seq<u8>, pos: int) -> int {
    pos + 12 + content_size(b, pos)
}

/// Reads the chunk that starts at `pos`, with all the chunks nested in it,
/// and gives the position just after it. A chunk is a four byte id, the
/// sizes of its content and of its children, its content, then its children
/// until their sizes add up to the size it announced.
pub open spec fn chunk_end(b: Seq<u8>, pos: int) -> Result<int, VoxError>
    decreases b.len() - pos, 0int,
{
    if pos < 0 || b.len() < pos + 12 || b.len() < content_end(b, pos) {
        Err(VoxError::UnexpectedEnd)
    } else {
        children_end(b, content_end(b, pos), children_size(b, pos))
    }
}

/// Reads chunks from `pos` on while less than `need` bytes of them were read,
/// and gives the position after the last one; their sizes must add up to
/// `need` exactly.
pub open spec fn children_end(b: Seq<u8>, pos: int, need: int) -> Result<int, VoxError>
    decreases b.len() - pos, 1int,
{
    if need <= 0 {
        if need == 0 {
            Ok(pos)
        } else {
            Err(VoxError::InvalidData)
        }
    } else if pos < 0 || pos > b.len() {
        Err(VoxError::UnexpectedEnd)
    } else {
        match chunk_end(b, pos) {
            Err(e) => Err(e),
            Ok(end) => if end <= pos || end > b.len() {
                Err(VoxError::InvalidData)
            } else {
                children_end(b, end, need - (end - pos))
            },
        }
    }
}

/// A chunk that can be read takes at least its twelve bytes of header and
/// ends within the data.
pub proof fn lemma_chunk_end_bounds(b: Seq<u8>, pos: int)
    requires
        0 <= pos <= b.len(),
    ensures
        chunk_end(b, pos) matches Ok(end) ==> pos + 12 <= end <= b.len(),
    decreases b.len() - pos, 0int,
{
    if !(pos < 0 || b.len() < pos + 12 || b.len() < content_end(b, pos)) {
        lemma_children_end_bounds(b, content_end(b, pos), children_size(b, pos));
    }
}

/// Chunks read one after another end within the data.
pub proof fn lemma_children_end_bounds(b: Seq<u8>, pos: int, need: int)
    requires
        0 <= pos <= b.len(),
    ensures
        children_end(b, pos, need) matches Ok(end) ==> pos <= end <= b.len(),
    decreases b.len() - pos, 1int,
{
    if need > 0 {
        lemma_chunk_end_bounds(b, pos);
        if let Ok(end) = chunk_end(b, pos) {
            if end > pos && end <= b.len() {
                lemma_children_end_bounds(b, end, need - (end - pos));
            }
        }
    }
}

/// Reads the chunk at `pos` and the chunks nested in it; gives the position
/// just after it.
fn read_chunk_end(b: &[u8], pos: usize) -> (r: Result<usize, VoxError>)
    requires
        pos <= b@.len(),
    ensures
        match r {
            Ok(end) => chunk_end(b@, pos as int) == Ok::<int, VoxError>(end as int),
            Err(e) => chunk_end(b@, pos as int) == Err::<int, VoxError>(e),
        },
    decreases b@.len() - pos,
{
    if b.len() - pos < 12 {
        return Err(VoxError::UnexpectedEnd);
    }
    let content = u32_at(b, pos + 4) as usize;
    let need = u32_at(b, pos + 8) as u64;
    if b.len() - pos - 12 < content {
        return Err(VoxError::UnexpectedEnd);
    }
    let mut p: usize = pos + 12 + content;
    let mut loaded: u64 = 0;
    while loaded < need
        invariant
            pos + 12 <= p <= b@.len(),
            loaded <= need,
            need == children_size(b@, pos as int),
            chunk_end(b@, pos as int) == children_end(b@, p as int, need - loaded),
        decreases b@.len() - p,
    {
        match read_chunk_end(b, p) {
            Err(e) => {
                return Err(e);
            },
            Ok(end) => {
                proof {
                    lemma_chunk_end_bounds(b@, p as int);
                }
                let size = (end - p) as u64;
                if size > need - loaded {
                    assert(children_end(b@, end as int, need - loaded - size) == Err::<int, VoxError>(
                        VoxError::InvalidData,
                    ));
                    return Err(VoxError::InvalidData);
                }
                loaded = loaded + size;
                p = end;
            },
        }
    }
    Ok(p)
}


/// A chunk directly inside the main chunk: its id and its content.
pub struct RawChunk {
    pub id: [u8; 4],
    pub content: Vec<u8>,
}

impl View for RawChunk {
    type V = (Seq<u8>, Seq<u8>);

    open spec fn view(&self) -> (Seq<u8>, Seq<u8>) {
        (self.id@, self.content@)
    }
}

/// The bytes of a four letter chunk id.
pub open spec fn id_bytes(id: Seq<char>) -> Seq<u8> {
    Seq::new(4, |i: int| id[i] as u8)
}

/// The id and content of the chunk at `pos`.
pub open spec fn chunk_parts(b: Seq<u8>, pos: int) -> (Seq<u8>, Seq<u8>) {
    (b.subrange(pos, pos + 4), b.subrange(pos + 12, content_end(b, pos)))
}

/// Like `children_end`, but keeps the id and content of each chunk read.
pub open spec fn children_parts(b: Seq<u8>, pos: int, need: int) -> Result<Seq<(Seq<u8>, Seq<u8>)>, VoxError>
    decreases b.len() - pos,
{
    if need <= 0 {
        if need == 0 {
            Ok(Seq::empty())
        } else {
            Err(VoxError::InvalidData)
        }
    } else if pos < 0 || pos > b.len() {
        Err(VoxError::UnexpectedEnd)
    } else {
        match chunk_end(b, pos) {
            Err(e) => Err(e),
            Ok(end) => if end <= pos || end > b.len() {
                Err(VoxError::InvalidData)
            } else {
                match children_parts(b, end, need - (end - pos)) {
                    Err(e) => Err(e),
                    Ok(rest) => Ok(seq![chunk_parts(b, pos)] + rest),
                }
            },
        }
    }
}

/// The chunks inside the main chunk of a `.vox` file: a four byte magic
/// number, a version of at least 150, then a chunk with id `MAIN`.
pub open spec fn vox_chunks(b: Seq<u8>) -> Result<Seq<(Seq<u8>, Seq<u8>)>, VoxError> {
    if b.len() < 8 {
        Err(VoxError::UnexpectedEnd)
    } else if le_u32(b, 4) < 150 {
        Err(VoxError::InvalidData)
    } else if b.len() < 20 || b.len() < content_end(b, 8) {
        Err(VoxError::UnexpectedEnd)
    } else {
        match children_parts(b, content_end(b, 8), children_size(b, 8)) {
            Err(e) => Err(e),
            Ok(children) => if b.subrange(8, 12) == id_bytes("MAIN"@) {
                Ok(children)
            } else {
                Err(VoxError::InvalidData)
            },
        }
    }
}

fn is_id(id: &[u8; 4], a: u8, b: u8, c: u8, d: u8) -> (r: bool)
    ensures
        r == (id@ == seq![a, b, c, d]),
{
    let r = id[0] == a && id[1] == b && id[2] == c && id[3] == d;
    proof {
        if r {
            assert(id@ =~= seq![a, b, c, d]);
        } else if id@ == seq![a, b, c, d] {
            assert(id@[0] == a && id@[1] == b && id@[2] == c && id@[3] == d);
        }
    }
    r
}

/// `r` with `s` put in front of what it holds, if it holds something.
pub open spec fn prefixed<A>(s: Seq<A>, r: Result<Seq<A>, VoxError>) -> Result<Seq<A>, VoxError> {
    match r {
        Ok(rest) => Ok(s + rest),
        Err(e) => Err(e),
    }
}

fn raw_chunk(b: &[u8], pos: usize) -> (r: RawChunk)
    requires
        pos <= b@.len(),
        chunk_end(b@, pos as int) is Ok,
    ensures
        r@ == chunk_parts(b@, pos as int),
{
    let n = b.len();
    let end = pos + 12 + u32_at(b, pos + 4) as usize;
    let id: [u8; 4] = [b[pos], b[pos + 1], b[pos + 2], b[pos + 3]];
    let content = vstd::slice::slice_to_vec(&b[pos + 12..end]);
    proof {
        assert(id@ =~= b@.subrange(pos as int, pos + 4));
    }
    RawChunk { id, content }
}

/// Reads the header and the main chunk of a `.vox` file and gives the chunks
/// directly inside the main chunk.
pub fn read_chunks(b: &[u8]) -> (r: Result<Vec<RawChunk>, VoxError>)
    ensures
        match r {
            Ok(v) => vox_chunks(b@) == Ok::<_, VoxError>(v@.map_values(|c: RawChunk| c@)),
            Err(e) => vox_chunks(b@) == Err::<Seq<(Seq<u8>, Seq<u8>)>, _>(e),
        },
{
    let n = b.len();
    if n < 8 {
        return Err(VoxError::UnexpectedEnd);
    }
    if u32_at(b, 4) < 150 {
        return Err(VoxError::InvalidData);
    }
    if n < 20 {
        return Err(VoxError::UnexpectedEnd);
    }
    let content = u32_at(b, 12) as usize;
    let need = u32_at(b, 16) as u64;
    if n - 20 < content {
        return Err(VoxError::UnexpectedEnd);
    }
    let mut p: usize = 20 + content;
    let mut loaded: u64 = 0;
    let mut chunks: Vec<RawChunk> = Vec::new();
    let ghost start = p as int;
    while loaded < need
        invariant
            20 <= p <= b@.len(),
            loaded <= need,
            need == children_size(b@, 8),
            start == content_end(b@, 8),
            b@.len() >= 20,
            b@.len() >= content_end(b@, 8),
            le_u32(b@, 4) >= 150,
            children_parts(b@, start, need as int) == prefixed(
                chunks@.map_values(|c: RawChunk| c@),
                children_parts(b@, p as int, need - loaded),
            ),
        decreases b@.len() - p,
    {
        match read_chunk_end(b, p) {
            Err(e) => {
                assert(children_parts(b@, p as int, need - loaded) == Err::<Seq<(Seq<u8>, Seq<u8>)>, _>(e));
                return Err(e);
            },
            Ok(end) => {
                proof {
                    lemma_chunk_end_bounds(b@, p as int);
                }
                let size = (end - p) as u64;
                if size > need - loaded {
                    assert(children_parts(b@, end as int, need - loaded - size) == Err::<
                        Seq<(Seq<u8>, Seq<u8>)>,
                        _,
                    >(VoxError::InvalidData));
                    return Err(VoxError::InvalidData);
                }
                let chunk = raw_chunk(b, p);
                let ghost before = chunks@.map_values(|c: RawChunk| c@);
                chunks.push(chunk);
                proof {
                    assert(chunks@.map_values(|c: RawChunk| c@) =~= before.push(chunk_parts(b@, p as int)));
                    match children_parts(b@, end as int, need - loaded - size) {
                        Ok(rest) => {
                            assert(before + (seq![chunk_parts(b@, p as int)] + rest) =~= before.push(
                                chunk_parts(b@, p as int),
                            ) + rest);
                        },
                        Err(_) => {},
                    }
                }
                loaded = loaded + size;
                p = end;
            },
        }
    }
    proof {
        assert(chunks@.map_values(|c: RawChunk| c@) + Seq::empty() =~= chunks@.map_values(|c: RawChunk| c@));
    }
    if !is_id(&[b[8], b[9], b[10], b[11]], 77, 65, 73, 78) {
        proof {
            reveal_strlit("MAIN");
            assert(id_bytes("MAIN"@) =~= seq![77u8, 65, 73, 78]);
            assert(seq![b@[8], b@[9], b@[10], b@[11]] =~= b@.subrange(8, 12));
        }
        return Err(VoxError::InvalidData);
    }
    proof {
        reveal_strlit("MAIN");
        assert(id_bytes("MAIN"@) =~= seq![77u8, 65, 73, 78]);
        assert(seq![b@[8], b@[9], b@[10], b@[11]] =~= b@.subrange(8, 12));
    }
    Ok(chunks)
}


/// The raw fields of a `MATT` chunk: the palette entry it changes, the
/// material type, and the weight and roughness as the bits of `f32` values.
#[derive(Clone, Copy, Debug, PartialEq, Eq, Structural)]
pub struct MattProps {
    pub id: u32,
    pub ty: u32,
    pub weight: u32,
    pub props: u32,
    /// Present when bit 1 of `props` is set.
    pub roughness: Option<u32>,
}

/// A change of the palette, in file order.
pub enum PaletteOp {
    /// A `RGBA` chunk: the 255 colors of entries 1 to 255.
    Colors(Vec<(u8, u8, u8, u8)>),
    /// A `MATT` chunk.
    Matt(MattProps),
}

pub enum PaletteOpView {
    Colors(Seq<(u8, u8, u8, u8)>),
    Matt(MattProps),
}

impl View for PaletteOp {
    type V = PaletteOpView;

    open spec fn view(&self) -> PaletteOpView {
        match self {
            PaletteOp::Colors(c) => PaletteOpView::Colors(c@),
            PaletteOp::Matt(m) => PaletteOpView::Matt(*m),
        }
    }
}

/// What the chunks of a `.vox` file hold: the size of each model, the voxels
/// `(x, y, z, color)` of each model, and the palette changes.
pub struct VoxContents {
    pub sizes: Vec<(u32, u32, u32)>,
    pub models: Vec<Vec<(u8, u8, u8, u8)>>,
    pub palette: Vec<PaletteOp>,
}

pub struct VoxContentsView {
    pub sizes: Seq<(u32, u32, u32)>,
    pub models: Seq<Seq<(u8, u8, u8, u8)>>,
    pub palette: Seq<PaletteOpView>,
}

impl View for VoxContents {
    type V = VoxContentsView;

    open spec fn view(&self) -> VoxContentsView {
        VoxContentsView {
            sizes: self.sizes@,
            models: self.models@.map_values(|m: Vec<(u8, u8, u8, u8)>| m@),
            palette: self.palette@.map_values(|p: PaletteOp| p@),
        }
    }
}

/// Bit `k` of `field` is set.
pub open spec fn spec_bit(field: u32, k: u32) -> bool {
    field & (1u32 << k) > 0
}

/// Bit `k` of `field` is set.
pub fn bit(field: u32, k: u32) -> (r: bool)
    requires
        k < 32,
    ensures
        r == spec_bit(field, k),
{
    field & (1u32 << k) > 0
}

/// Four bytes if bit `k` of `props` is set, else none.
pub open spec fn opt_len(props: u32, k: u32) -> int {
    if spec_bit(props, k) {
        4
    } else {
        0
    }
}

/// Length of a `MATT` chunk whose property bits are `props`: four fields,
/// then one `f32` per set bit among bits 0 to 6.
pub open spec fn matt_len(props: u32) -> int {
    16 + opt_len(props, 0) + opt_len(props, 1) + opt_len(props, 2) + opt_len(props, 3) + opt_len(props, 4)
        + opt_len(props, 5) + opt_len(props, 6)
}

/// The voxel `(x, y, z, color)` number `i` of an `XYZI` chunk.
pub open spec fn xyzi_at(c: Seq<u8>, i: int) -> (u8, u8, u8, u8) {
    (c[4 + 4 * i], c[5 + 4 * i], c[6 + 4 * i], c[7 + 4 * i])
}

/// The color number `i` of a `RGBA` chunk.
pub open spec fn rgba_at(c: Seq<u8>, i: int) -> (u8, u8, u8, u8) {
    (c[4 * i], c[1 + 4 * i], c[2 + 4 * i], c[3 + 4 * i])
}

/// What reading the chunk `(id, content)` adds to `acc`. Chunks of other ids
/// add nothing.
pub open spec fn read_child(acc: VoxContentsView, id: Seq<u8>, c: Seq<u8>) -> Result<VoxContentsView, VoxError> {
    if id == id_bytes("SIZE"@) {
        if c.len() < 12 {
            Err(VoxError::UnexpectedEnd)
        } else {
            Ok(
                VoxContentsView {
                    sizes: acc.sizes.push((le_u32(c, 0) as u32, le_u32(c, 4) as u32, le_u32(c, 8) as u32)),
                    ..acc
                },
            )
        }
    } else if id == id_bytes("XYZI"@) {
        if c.len() < 4 || c.len() < 4 + 4 * le_u32(c, 0) {
            Err(VoxError::UnexpectedEnd)
        } else {
            Ok(
                VoxContentsView {
                    models: acc.models.push(Seq::new(le_u32(c, 0) as nat, |i: int| xyzi_at(c, i))),
                    ..acc
                },
            )
        }
    } else if id == id_bytes("RGBA"@) {
        if c.len() < 1020 {
            Err(VoxError::UnexpectedEnd)
        } else {
            Ok(
                VoxContentsView {
                    palette: acc.palette.push(PaletteOpView::Colors(Seq::new(255, |i: int| rgba_at(c, i)))),
                    ..acc
                },
            )
        }
    } else if id == id_bytes("MATT"@) {
        if c.len() < 16 || c.len() < matt_len(le_u32(c, 12) as u32) {
            Err(VoxError::UnexpectedEnd)
        } else {
            let props = le_u32(c, 12) as u32;
            let m = MattProps {
                id: le_u32(c, 0) as u32,
                ty: le_u32(c, 4) as u32,
                weight: le_u32(c, 8) as u32,
                props,
                roughness: if spec_bit(props, 1) {
                    Some(le_u32(c, 16 + opt_len(props, 0)) as u32)
                } else {
                    None
                },
            };
            Ok(VoxContentsView { palette: acc.palette.push(PaletteOpView::Matt(m)), ..acc })
        }
    } else {
        Ok(acc)
    }
}

/// Reads the chunks in order, stopping at the first that cannot be read.
pub open spec fn contents_of(chunks: Seq<(Seq<u8>, Seq<u8>)>) -> Result<VoxContentsView, VoxError>
    decreases chunks.len(),
{
    if chunks.len() == 0 {
        Ok(VoxContentsView { sizes: Seq::empty(), models: Seq::empty(), palette: Seq::empty() })
    } else {
        match contents_of(chunks.drop_last()) {
            Err(e) => Err(e),
            Ok(acc) => read_child(acc, chunks.last().0, chunks.last().1),
        }
    }
}

/// What a `.vox` file holds.
pub open spec fn vox_contents(b: Seq<u8>) -> Result<VoxContentsView, VoxError> {
    match vox_chunks(b) {
        Err(e) => Err(e),
        Ok(chunks) => contents_of(chunks),
    }
}

proof fn lemma_contents_error_stays(chunks: Seq<(Seq<u8>, Seq<u8>)>, k: int)
    requires
        0 <= k <= chunks.len(),
        contents_of(chunks.take(k)) is Err,
    ensures
        contents_of(chunks) == contents_of(chunks.take(k)),
    decreases chunks.len() - k,
{
    if k < chunks.len() {
        assert(chunks.take(k + 1).drop_last() =~= chunks.take(k));
        lemma_contents_error_stays(chunks, k + 1);
    } else {
        assert(chunks.take(k) =~= chunks);
    }
}

proof fn lemma_id(id: Seq<char>, a: u8, b: u8, c: u8, d: u8)
    requires
        id.len() == 4,
        id[0] as u8 == a, id[1] as u8 == b, id[2] as u8 == c, id[3] as u8 == d,
    ensures
        id_bytes(id) == seq![a, b, c, d],
{
    assert(id_bytes(id) =~= seq![a, b, c, d]);
}

fn read_size(c: &[u8]) -> (r: Result<(u32, u32, u32), VoxError>)
    ensures
        match r {
            Ok(s) => c@.len() >= 12 && s == (le_u32(c@, 0) as u32, le_u32(c@, 4) as u32, le_u32(c@, 8) as u32),
            Err(e) => c@.len() < 12 && e == VoxError::UnexpectedEnd,
        },
{
    if c.len() < 12 {
        return Err(VoxError::UnexpectedEnd);
    }
    Ok((u32_at(c, 0), u32_at(c, 4), u32_at(c, 8)))
}

fn read_xyzi(c: &[u8]) -> (r: Result<Vec<(u8, u8, u8, u8)>, VoxError>)
    ensures
        match r {
            Ok(v) => !(c@.len() < 4 || c@.len() < 4 + 4 * le_u32(c@, 0)) && v@ == Seq::new(
                le_u32(c@, 0) as nat,
                |i: int| xyzi_at(c@, i),
            ),
            Err(e) => (c@.len() < 4 || c@.len() < 4 + 4 * le_u32(c@, 0)) && e == VoxError::UnexpectedEnd,
        },
{
    let n = c.len();
    if n < 4 {
        return Err(VoxError::UnexpectedEnd);
    }
    let num = u32_at(c, 0) as usize;
    if (n - 4) / 4 < num {
        return Err(VoxError::UnexpectedEnd);
    }
    let mut v: Vec<(u8, u8, u8, u8)> = Vec::new();
    let mut i: usize = 0;
    while i < num
        invariant
            n == c@.len(),
            num == le_u32(c@, 0),
            4 + 4 * num <= n,
            i <= num,
            v@ == Seq::new(i as nat, |j: int| xyzi_at(c@, j)),
        decreases num - i,
    {
        let o = 4 + 4 * i;
        v.push((c[o], c[o + 1], c[o + 2], c[o + 3]));
        i = i + 1;
        proof {
            assert(v@ =~= Seq::new(i as nat, |j: int| xyzi_at(c@, j)));
        }
    }
    Ok(v)
}

fn read_rgba(c: &[u8]) -> (r: Result<Vec<(u8, u8, u8, u8)>, VoxError>)
    ensures
        match r {
            Ok(v) => c@.len() >= 1020 && v@ == Seq::new(255, |i: int| rgba_at(c@, i)),
            Err(e) => c@.len() < 1020 && e == VoxError::UnexpectedEnd,
        },
{
    let n = c.len();
    if n < 1020 {
        return Err(VoxError::UnexpectedEnd);
    }
    let mut v: Vec<(u8, u8, u8, u8)> = Vec::new();
    let mut i: usize = 0;
    while i < 255
        invariant
            n == c@.len(),
            1020 <= n,
            i <= 255,
            v@ == Seq::new(i as nat, |j: int| rgba_at(c@, j)),
        decreases 255 - i,
    {
        let o = 4 * i;
        v.push((c[o], c[o + 1], c[o + 2], c[o + 3]));
        i = i + 1;
        proof {
            assert(v@ =~= Seq::new(i as nat, |j: int| rgba_at(c@, j)));
        }
    }
    Ok(v)
}

fn read_matt(c: &[u8]) -> (r: Result<MattProps, VoxError>)
    ensures
        match r {
            Ok(m) => !(c@.len() < 16 || c@.len() < matt_len(le_u32(c@, 12) as u32)) && m == (MattProps {
                id: le_u32(c@, 0) as u32,
                ty: le_u32(c@, 4) as u32,
                weight: le_u32(c@, 8) as u32,
                props: le_u32(c@, 12) as u32,
                roughness: if spec_bit(le_u32(c@, 12) as u32, 1) {
                    Some(le_u32(c@, 16 + opt_len(le_u32(c@, 12) as u32, 0)) as u32)
                } else {
                    None
                },
            }),
            Err(e) => (c@.len() < 16 || c@.len() < matt_len(le_u32(c@, 12) as u32)) && e
                == VoxError::UnexpectedEnd,
        },
{
    let n = c.len();
    if n < 16 {
        return Err(VoxError::UnexpectedEnd);
    }
    let id = u32_at(c, 0);
    let ty = u32_at(c, 4);
    let weight = u32_at(c, 8);
    let props = u32_at(c, 12);
    let mut need: usize = 16;
    let mut k: u32 = 0;
    while k < 7
        invariant
            k <= 7,
            need == 16 + (if k > 0 { opt_len(props, 0) } else { 0 }) + (if k > 1 { opt_len(props, 1) } else { 0 }) + (
            if k > 2 { opt_len(props, 2) } else { 0 }) + (if k > 3 { opt_len(props, 3) } else { 0 }) + (if k > 4 {
                opt_len(props, 4)
            } else { 0 }) + (if k > 5 { opt_len(props, 5) } else { 0 }) + (if k > 6 { opt_len(props, 6) } else { 0 }),
        decreases 7 - k,
    {
        if bit(props, k) {
            need = need + 4;
        }
        k = k + 1;
    }
    if n < need {
        return Err(VoxError::UnexpectedEnd);
    }
    let roughness = if bit(props, 1) {
        let at: usize = if bit(props, 0) { 20 } else { 16 };
        Some(u32_at(c, at))
    } else {
        None
    };
    Ok(MattProps { id, ty, weight, props, roughness })
}

/// Reads the chunks of the main chunk in order.
pub fn read_contents(chunks: &Vec<RawChunk>) -> (r: Result<VoxContents, VoxError>)
    ensures
        match r {
            Ok(v) => contents_of(chunks@.map_values(|c: RawChunk| c@)) == Ok::<_, VoxError>(v@),
            Err(e) => contents_of(chunks@.map_values(|c: RawChunk| c@)) == Err::<VoxContentsView, _>(e),
        },
{
    let ghost all = chunks@.map_values(|c: RawChunk| c@);
    proof {
        reveal_strlit("SIZE");
        reveal_strlit("XYZI");
        reveal_strlit("RGBA");
        reveal_strlit("MATT");
        lemma_id("SIZE"@, 83, 73, 90, 69);
        lemma_id("XYZI"@, 88, 89, 90, 73);
        lemma_id("RGBA"@, 82, 71, 66, 65);
        lemma_id("MATT"@, 77, 65, 84, 84);
    }
    let mut out = VoxContents { sizes: Vec::new(), models: Vec::new(), palette: Vec::new() };
    let mut i: usize = 0;
    proof {
        assert(all.take(0) =~= Seq::<(Seq<u8>, Seq<u8>)>::empty());
        assert(out@.models =~= Seq::<Seq<(u8, u8, u8, u8)>>::empty());
        assert(out@.palette =~= Seq::<PaletteOpView>::empty());
    }
    while i < chunks.len()
        invariant
            i <= chunks@.len(),
            all == chunks@.map_values(|c: RawChunk| c@),
            id_bytes("SIZE"@) == seq![83u8, 73, 90, 69],
            id_bytes("XYZI"@) == seq![88u8, 89, 90, 73],
            id_bytes("RGBA"@) == seq![82u8, 71, 66, 65],
            id_bytes("MATT"@) == seq![77u8, 65, 84, 84],
            contents_of(all.take(i as int)) == Ok::<_, VoxError>(out@),
        decreases chunks@.len() - i,
    {
        let chunk = &chunks[i];
        let c = chunk.content.as_slice();
        let ghost acc = out@;
        proof {
            assert(all.take(i + 1).drop_last() =~= all.take(i as int));
            assert(all.take(i + 1).last() == chunk@);
        }
        let step: Result<(), VoxError> = if is_id(&chunk.id, 83, 73, 90, 69) {
            match read_size(c) {
                Ok(s) => {
                    out.sizes.push(s);
                    Ok(())
                },
                Err(e) => Err(e),
            }
        } else if is_id(&chunk.id, 88, 89, 90, 73) {
            match read_xyzi(c) {
                Ok(v) => {
                    let ghost vv = v@;
                    out.models.push(v);
                    proof {
                        assert(out@.models =~= acc.models.push(vv));
                    }
                    Ok(())
                },
                Err(e) => Err(e),
            }
        } else if is_id(&chunk.id, 82, 71, 66, 65) {
            match read_rgba(c) {
                Ok(v) => {
                    let ghost vv = v@;
                    out.palette.push(PaletteOp::Colors(v));
                    proof {
                        assert(out@.palette =~= acc.palette.push(PaletteOpView::Colors(vv)));
                    }
                    Ok(())
                },
                Err(e) => Err(e),
            }
        } else if is_id(&chunk.id, 77, 65, 84, 84) {
            match read_matt(c) {
                Ok(m) => {
                    out.palette.push(PaletteOp::Matt(m));
                    proof {
                        assert(out@.palette =~= acc.palette.push(PaletteOpView::Matt(m)));
                    }
                    Ok(())
                },
                Err(e) => Err(e),
            }
        } else {
            Ok(())
        };
        match step {
            Err(e) => {
                proof {
                    lemma_contents_error_stays(all, i + 1);
                }
                return Err(e);
            },
            Ok(()) => {},
        }
        proof {
            assert(out@.sizes == read_child(acc, chunk@.0, chunk@.1).get_Ok_0().sizes);
        }
        i = i + 1;
    }
    proof {
        assert(all.take(i as int) =~= all);
    }
    Ok(out)
}

/// Reads a `.vox` file: its header, its chunks, and what they hold.
pub fn read_vox(b: &[u8]) -> (r: Result<VoxContents, VoxError>)
    ensures
        match r {
            Ok(v) => vox_contents(b@) == Ok::<_, VoxError>(v@),
            Err(e) => vox_contents(b@) == Err::<VoxContentsView, _>(e),
        },
{
    let chunks = read_chunks(b)?;
    read_contents(&chunks)
}


/// The palette MagicaVoxel uses when a file has no `RGBA` chunk, one
/// `0xAABBGGRR` value per entry.
pub const DEFAULT_PALETTE: [u32; 256] = [
    0x00000000, 0xffffffff, 0xffccffff, 0xff99ffff, 0xff66ffff, 0xff33ffff, 0xff00ffff, 0xffffccff,
    0xffccccff, 0xff99ccff, 0xff66ccff, 0xff33ccff, 0xff00ccff, 0xffff99ff, 0xffcc99ff, 0xff9999ff,
    0xff6699ff, 0xff3399ff, 0xff0099ff, 0xffff66ff, 0xffcc66ff, 0xff9966ff, 0xff6666ff, 0xff3366ff,
    0xff0066ff, 0xffff33ff, 0xffcc33ff, 0xff9933ff, 0xff6633ff, 0xff3333ff, 0xff0033ff, 0xffff00ff,
    0xffcc00ff, 0xff9900ff, 0xff6600ff, 0xff3300ff, 0xff0000ff, 0xffffffcc, 0xffccffcc, 0xff99ffcc,
    0xff66ffcc, 0xff33ffcc, 0xff00ffcc, 0xffffcccc, 0xffcccccc, 0xff99cccc, 0xff66cccc, 0xff33cccc,
    0xff00cccc, 0xffff99cc, 0xffcc99cc, 0xff9999cc, 0xff6699cc, 0xff3399cc, 0xff0099cc, 0xffff66cc,
    0xffcc66cc, 0xff9966cc, 0xff6666cc, 0xff3366cc, 0xff0066cc, 0xffff33cc, 0xffcc33cc, 0xff9933cc,
    0xff6633cc, 0xff3333cc, 0xff0033cc, 0xffff00cc, 0xffcc00cc, 0xff9900cc, 0xff6600cc, 0xff3300cc,
    0xff0000cc, 0xffffff99, 0xffccff99, 0xff99ff99, 0xff66ff99, 0xff33ff99, 0xff00ff99, 0xffffcc99,
    0xffcccc99, 0xff99cc99, 0xff66cc99, 0xff33cc99, 0xff00cc99, 0xffff9999, 0xffcc9999, 0xff999999,
    0xff669999, 0xff339999, 0xff009999, 0xffff6699, 0xffcc6699, 0xff996699, 0xff666699, 0xff336699,
    0xff006699, 0xffff3399, 0xffcc3399, 0xff993399, 0xff663399, 0xff333399, 0xff003399, 0xffff0099,
    0xffcc0099, 0xff990099, 0xff660099, 0xff330099, 0xff000099, 0xffffff66, 0xffccff66, 0xff99ff66,
    0xff66ff66, 0xff33ff66, 0xff00ff66, 0xffffcc66, 0xffcccc66, 0xff99cc66, 0xff66cc66, 0xff33cc66,
    0xff00cc66, 0xffff9966, 0xffcc9966, 0xff999966, 0xff669966, 0xff339966, 0xff009966, 0xffff6666,
    0xffcc6666, 0xff996666, 0xff666666, 0xff336666, 0xff006666, 0xffff3366, 0xffcc3366, 0xff993366,
    0xff663366, 0xff333366, 0xff003366, 0xffff0066, 0xffcc0066, 0xff990066, 0xff660066, 0xff330066,
    0xff000066, 0xffffff33, 0xffccff33, 0xff99ff33, 0xff66ff33, 0xff33ff33, 0xff00ff33, 0xffffcc33,
    0xffcccc33, 0xff99cc33, 0xff66cc33, 0xff33cc33, 0xff00cc33, 0xffff9933, 0xffcc9933, 0xff999933,
    0xff669933, 0xff339933, 0xff009933, 0xffff6633, 0xffcc6633, 0xff996633, 0xff666633, 0xff336633,
    0xff006633, 0xffff3333, 0xffcc3333, 0xff993333, 0xff663333, 0xff333333, 0xff003333, 0xffff0033,
    0xffcc0033, 0xff990033, 0xff660033, 0xff330033, 0xff000033, 0xffffff00, 0xffccff00, 0xff99ff00,
    0xff66ff00, 0xff33ff00, 0xff00ff00, 0xffffcc00, 0xffcccc00, 0xff99cc00, 0xff66cc00, 0xff33cc00,
    0xff00cc00, 0xffff9900, 0xffcc9900, 0xff999900, 0xff669900, 0xff339900, 0xff009900, 0xffff6600,
    0xffcc6600, 0xff996600, 0xff666600, 0xff336600, 0xff006600, 0xffff3300, 0xffcc3300, 0xff993300,
    0xff663300, 0xff333300, 0xff003300, 0xffff0000, 0xffcc0000, 0xff990000, 0xff660000, 0xff330000,
    0xff0000ee, 0xff0000dd, 0xff0000bb, 0xff0000aa, 0xff000088, 0xff000077, 0xff000055, 0xff000044,
    0xff000022, 0xff000011, 0xff00ee00, 0xff00dd00, 0xff00bb00, 0xff00aa00, 0xff008800, 0xff007700,
    0xff005500, 0xff004400, 0xff002200, 0xff001100, 0xffee0000, 0xffdd0000, 0xffbb0000, 0xffaa0000,
    0xff880000, 0xff770000, 0xff550000, 0xff440000, 0xff220000, 0xff110000, 0xffeeeeee, 0xffdddddd,
    0xffbbbbbb, 0xffaaaaaa, 0xff888888, 0xff777777, 0xff555555, 0xff444444, 0xff222222, 0xff111111
];

/// How palette colors become materials: every color gets these metallic and
/// roughness factors.
#[derive(Clone, Copy, Debug, PartialEq, Eq, Structural)]
pub struct PaletteStyle {
    pub metallic: u8,
    pub roughness: u8,
}

impl PaletteStyle {
    /// The style of models imported as assets.
    pub fn asset() -> (r: PaletteStyle)
        ensures
            r == (PaletteStyle { metallic: 8, roughness: 240 }),
    {
        PaletteStyle { metallic: 8, roughness: 240 }
    }

    /// The style of models loaded into a world.
    pub fn world() -> (r: PaletteStyle)
        ensures
            r == (PaletteStyle { metallic: 0, roughness: 255 }),
    {
        PaletteStyle { metallic: 0, roughness: 255 }
    }
}

/// The color `(r, g, b, a)` held by a palette value `0xAABBGGRR`.
pub open spec fn unpack(m: u32) -> (u8, u8, u8, u8) {
    ((m & 0xff) as u8, ((m >> 8) & 0xff) as u8, ((m >> 16) & 0xff) as u8, ((m >> 24) & 0xff) as u8)
}

/// The material of a plain palette color.
pub open spec fn color_material(style: PaletteStyle, c: (u8, u8, u8, u8)) -> ColoredMaterial {
    ColoredMaterial {
        albedo: [c.0, c.1, c.2],
        emission: [0, 0, 0],
        alpha: c.3,
        metallic: style.metallic,
        roughness: style.roughness,
    }
}

/// Convert a simple r, g, b, a color to a material.
pub fn rgba_to_material(style: PaletteStyle, r: u8, g: u8, b: u8, a: u8) -> (m: ColoredMaterial)
    ensures
        m == color_material(style, (r, g, b, a)),
{
    ColoredMaterial { albedo: [r, g, b], emission: [0, 0, 0], alpha: a, metallic: style.metallic, roughness: style.roughness }
}

/// The palette of a file without palette chunks.
pub open spec fn default_palette(style: PaletteStyle) -> Seq<ColoredMaterial> {
    Seq::new(256, |i: int| color_material(style, unpack(DEFAULT_PALETTE[i])))
}

/// A change of the palette, with the factors of a `MATT` chunk already
/// converted to bytes.
pub enum PaletteEdit {
    /// Entry 0 becomes the default material and entries 1 to 255 these colors.
    Colors(Vec<(u8, u8, u8, u8)>),
    /// Entry `id` gets material type `ty` with these factors.
    Material { id: u32, ty: u32, metallic: u8, roughness: u8 },
}

pub enum PaletteEditView {
    Colors(Seq<(u8, u8, u8, u8)>),
    Material { id: u32, ty: u32, metallic: u8, roughness: u8 },
}

impl View for PaletteEdit {
    type V = PaletteEditView;

    open spec fn view(&self) -> PaletteEditView {
        match self {
            PaletteEdit::Colors(c) => PaletteEditView::Colors(c@),
            PaletteEdit::Material { id, ty, metallic, roughness } => PaletteEditView::Material {
                id: *id,
                ty: *ty,
                metallic: *metallic,
                roughness: *roughness,
            },
        }
    }
}

/// Every edit keeps the palette at 256 entries: color lists hold 255 colors
/// and material changes name an entry of the palette.
pub open spec fn edits_fit(edits: Seq<PaletteEditView>) -> bool {
    forall|i: int|
        0 <= i < edits.len() ==> match #[trigger] edits[i] {
            PaletteEditView::Colors(c) => c.len() == 255,
            PaletteEditView::Material { id, .. } => id < 256,
        }
}

/// Entry `old` after a `MATT` change of type `ty`: diffuse, metal and glass
/// take the new factors, emissive also glows in its albedo, other types keep
/// the entry.
pub open spec fn matt_material(old: ColoredMaterial, ty: u32, metallic: u8, roughness: u8) -> ColoredMaterial {
    if ty <= 2 {
        ColoredMaterial { metallic, roughness, ..old }
    } else if ty == 3 {
        ColoredMaterial { emission: old.albedo, metallic, roughness, ..old }
    } else {
        old
    }
}

/// The palette after one edit.
pub open spec fn edited(style: PaletteStyle, p: Seq<ColoredMaterial>, e: PaletteEditView) -> Seq<ColoredMaterial> {
    match e {
        PaletteEditView::Colors(c) => seq![ColoredMaterial::spec_default()] + c.map_values(
            |x: (u8, u8, u8, u8)| color_material(style, x),
        ),
        PaletteEditView::Material { id, ty, metallic, roughness } => p.update(
            id as int,
            matt_material(p[id as int], ty, metallic, roughness),
        ),
    }
}

/// The palette after the edits, in order, starting from the default one.
pub open spec fn palette_of(style: PaletteStyle, edits: Seq<PaletteEditView>) -> Seq<ColoredMaterial>
    decreases edits.len(),
{
    if edits.len() == 0 {
        default_palette(style)
    } else {
        edited(style, palette_of(style, edits.drop_last()), edits.last())
    }
}

/// Every palette has 256 entries, whatever edits it went through.
pub proof fn lemma_palette_len(style: PaletteStyle, edits: Seq<PaletteEditView>)
    requires
        edits_fit(edits),
    ensures
        palette_of(style, edits).len() == 256,
    decreases edits.len(),
{
    if edits.len() > 0 {
        assert(edits_fit(edits.drop_last())) by {
            assert forall|i: int| 0 <= i < edits.drop_last().len() implies match #[trigger] edits.drop_last()[i] {
                PaletteEditView::Colors(c) => c.len() == 255,
                PaletteEditView::Material { id, .. } => id < 256,
            } by {
                assert(edits.drop_last()[i] == edits[i]);
            }
        }
        lemma_palette_len(style, edits.drop_last());
        assert(match edits[edits.len() - 1] {
            PaletteEditView::Colors(c) => c.len() == 255,
            PaletteEditView::Material { id, .. } => id < 256,
        });
    }
}

/// A material change of type diffuse (0), metal (1), glass (2) or emissive
/// (3) gives entry `id` the change's metallic and roughness factors and keeps
/// its albedo and alpha; an emissive change also makes the entry glow in its
/// own albedo, the others keep its emission. A change of any other type
/// leaves the entry as it was, and no other entry changes.
pub proof fn lemma_material_edit(
    style: PaletteStyle,
    edits: Seq<PaletteEditView>,
    id: u32,
    ty: u32,
    metallic: u8,
    roughness: u8,
    k: int,
)
    requires
        edits_fit(edits),
        id < 256,
        0 <= k < 256,
    ensures
        ({
            let before = palette_of(style, edits);
            let after = palette_of(style, edits.push(PaletteEditView::Material { id, ty, metallic, roughness }));
            let i = id as int;
            &&& after.len() == 256
            &&& k != i ==> after[k] == before[k]
            &&& ty <= 3 ==> {
                &&& after[i].metallic == metallic
                &&& after[i].roughness == roughness
                &&& after[i].albedo == before[i].albedo
                &&& after[i].alpha == before[i].alpha
            }
            &&& ty <= 2 ==> after[i].emission == before[i].emission
            &&& ty == 3 ==> after[i].emission == before[i].albedo
            &&& ty > 3 ==> after[i] == before[i]
        }),
{
    let e = PaletteEditView::Material { id, ty, metallic, roughness };
    let all = edits.push(e);
    assert(all.drop_last() =~= edits);
    assert(all.last() == e);
    lemma_palette_len(style, edits);
}

/// A list of 255 colors makes entry 0 the default material and entry `i`
/// (1 to 255) the `i - 1`-th color: its red, green and blue as albedo, its
/// alpha, no emission, and the style's metallic and roughness factors.
pub proof fn lemma_colors_edit(style: PaletteStyle, edits: Seq<PaletteEditView>, colors: Seq<(u8, u8, u8, u8)>, i: int)
    requires
        edits_fit(edits),
        colors.len() == 255,
        1 <= i < 256,
    ensures
        ({
            let after = palette_of(style, edits.push(PaletteEditView::Colors(colors)));
            let c = colors[i - 1];
            &&& after.len() == 256
            &&& after[0] == ColoredMaterial::spec_default()
            &&& after[i].albedo == [c.0, c.1, c.2]
            &&& after[i].alpha == c.3
            &&& after[i].emission == [0u8, 0u8, 0u8]
            &&& after[i].metallic == style.metallic
            &&& after[i].roughness == style.roughness
        }),
{
    let e = PaletteEditView::Colors(colors);
    let all = edits.push(e);
    assert(all.drop_last() =~= edits);
    assert(all.last() == e);
}

fn default_materials(style: PaletteStyle) -> (r: Vec<ColoredMaterial>)
    ensures
        r@ == default_palette(style),
{
    let mut v: Vec<ColoredMaterial> = Vec::new();
    let mut i: usize = 0;
    while i < 256
        invariant
            i <= 256,
            v@ == Seq::new(i as nat, |j: int| color_material(style, unpack(DEFAULT_PALETTE[j]))),
        decreases 256 - i,
    {
        let m = DEFAULT_PALETTE[i];
        let r = (m & 0xff) as u8;
        let g = ((m >> 8) & 0xff) as u8;
        let b = ((m >> 16) & 0xff) as u8;
        let a = ((m >> 24) & 0xff) as u8;
        v.push(rgba_to_material(style, r, g, b, a));
        i = i + 1;
        proof {
            assert(v@ =~= Seq::new(i as nat, |j: int| color_material(style, unpack(DEFAULT_PALETTE[j]))));
        }
    }
    v
}

fn apply_edit(style: PaletteStyle, p: &mut Vec<ColoredMaterial>, e: &PaletteEdit)
    requires
        old(p)@.len() == 256,
        match e@ {
            PaletteEditView::Colors(c) => c.len() == 255,
            PaletteEditView::Material { id, .. } => id < 256,
        },
    ensures
        final(p)@ == edited(style, old(p)@, e@),
        final(p)@.len() == 256,
{
    match e {
        PaletteEdit::Colors(c) => {
            let mut v: Vec<ColoredMaterial> = Vec::new();
            v.push(ColoredMaterial::default());
            let mut i: usize = 0;
            while i < c.len()
                invariant
                    i <= c@.len(),
                    v@ == seq![ColoredMaterial::spec_default()] + c@.take(i as int).map_values(
                        |x: (u8, u8, u8, u8)| color_material(style, x),
                    ),
                decreases c@.len() - i,
            {
                let (r, g, b, a) = c[i];
                v.push(rgba_to_material(style, r, g, b, a));
                i = i + 1;
                proof {
                    assert(v@ =~= seq![ColoredMaterial::spec_default()] + c@.take(i as int).map_values(
                        |x: (u8, u8, u8, u8)| color_material(style, x),
                    ));
                }
            }
            proof {
                assert(c@.take(i as int) =~= c@);
            }
            *p = v;
        },
        PaletteEdit::Material { id, ty, metallic, roughness } => {
            let old = p[*id as usize];
            let new = if *ty <= 2 {
                ColoredMaterial { metallic: *metallic, roughness: *roughness, ..old }
            } else if *ty == 3 {
                ColoredMaterial { emission: old.albedo, metallic: *metallic, roughness: *roughness, ..old }
            } else {
                old
            };
            p.set(*id as usize, new);
        },
    }
}

/// The palette after the edits, in order, starting from the default one.
pub fn build_palette(style: PaletteStyle, edits: &Vec<PaletteEdit>) -> (r: Vec<ColoredMaterial>)
    requires
        edits_fit(edits@.map_values(|e: PaletteEdit| e@)),
    ensures
        r@ == palette_of(style, edits@.map_values(|e: PaletteEdit| e@)),
        r@.len() == 256,
{
    let ghost all = edits@.map_values(|e: PaletteEdit| e@);
    let mut p = default_materials(style);
    let mut i: usize = 0;
    proof {
        assert(all.take(0) =~= Seq::<PaletteEditView>::empty());
    }
    while i < edits.len()
        invariant
            i <= edits@.len(),
            all == edits@.map_values(|e: PaletteEdit| e@),
            edits_fit(all),
            p@ == palette_of(style, all.take(i as int)),
            p@.len() == 256,
        decreases edits@.len() - i,
    {
        proof {
            assert(all[i as int] == edits@[i as int]@);
            assert(all.take(i + 1).drop_last() =~= all.take(i as int));
            assert(all.take(i + 1).last() == all[i as int]);
        }
        apply_edit(style, &mut p, &edits[i]);
        i = i + 1;
    }
    proof {
        assert(all.take(i as int) =~= all);
    }
    p
}

/// Linear index of voxel `(x, y, z)` of a model of the given size.
pub open spec fn model_index(size: (u32, u32, u32), x: u8, y: u8, z: u8) -> int {
    x + y * size.0 + z * size.0 * size.1
}

/// The index of voxel `(x, y, z)` can be computed in a `usize`, left to right.
pub open spec fn model_index_fits(size: (u32, u32, u32), x: u8, y: u8, z: u8) -> bool {
    &&& model_index(size, x, y, z) <= usize::MAX
    &&& z * size.0 <= usize::MAX
}

/// The voxels of a model as `(index, palette entry)` pairs.
pub fn model_voxels(size: (u32, u32, u32), voxels: &Vec<(u8, u8, u8, u8)>) -> (r: Vec<(usize, usize)>)
    requires
        forall|i: int|
            0 <= i < voxels@.len() ==> model_index_fits(size, voxels@[i].0, voxels@[i].1, voxels@[i].2),
    ensures
        r@.len() == voxels@.len(),
        forall|i: int|
            0 <= i < r@.len() ==> #[trigger] r@[i] == (
                model_index(size, voxels@[i].0, voxels@[i].1, voxels@[i].2) as usize,
                voxels@[i].3 as usize,
            ),
{
    let mut r: Vec<(usize, usize)> = Vec::new();
    let mut i: usize = 0;
    while i < voxels.len()
        invariant
            i <= voxels@.len(),
            r@.len() == i,
            forall|j: int|
                0 <= j < voxels@.len() ==> model_index_fits(size, voxels@[j].0, voxels@[j].1, voxels@[j].2),
            forall|j: int|
                0 <= j < i ==> #[trigger] r@[j] == (
                    model_index(size, voxels@[j].0, voxels@[j].1, voxels@[j].2) as usize,
                    voxels@[j].3 as usize,
                ),
        decreases voxels@.len() - i,
    {
        let (x, y, z, m) = voxels[i];
        let w = size.0 as usize;
        let h = size.1 as usize;
        proof {
            let (xi, yi, zi, wi, hi) = (x as int, y as int, z as int, w as int, h as int);
            assert(model_index(size, x, y, z) == xi + yi * wi + zi * wi * hi);
            assert(0 <= yi * wi && 0 <= zi * wi && zi * wi <= zi * wi * hi || hi == 0) by (nonlinear_arith)
                requires
                    0 <= xi, 0 <= yi, 0 <= zi, 0 <= wi, 0 <= hi,
            ;
            assert(0 <= zi * wi * hi) by (nonlinear_arith)
                requires
                    0 <= zi, 0 <= wi, 0 <= hi,
            ;
        }
        let zw = z as usize * w;
        let index = x as usize + y as usize * w + zw * h;
        r.push((index, m as usize));
        i = i + 1;
    }
    r
}

} // verus!
