//! The YAML text of a Unity Mesh `.asset`: each Mesh sub-asset's body in
//! the CanvasRenderer or SpriteRenderer vertex layout, and the multi-mesh
//! file around them. Numbers of the bounding box come in already written
//! as the asset writes them, vertex data as the bytes of the vertex buffer.

use vstd::prelude::*;
use vstd::string::StringExecFns;
use crate::mesh_emit::{
    canvas_channel, channels_text, emit_channels_canvas, emit_channels_sprite, encode_index_buffer,
    index_bytes, sprite_channel,
};
use crate::meta::{dec_digits, dec_i64, hex_digit_lower, hex_lower, push_dec_digits, push_dec_i64};
use crate::png::append_bytes;
use crate::text::string_of;

verus! {

broadcast use vstd::string::group_string_axioms;

/// The compressed-mesh block of an uncompressed mesh.
pub const EMPTY_COMPRESSED_MESH: &'static str = "    m_Vertices:\n      m_NumItems: 0\n      m_Range: 0\n      m_Start: 0\n      m_Data: \n      m_BitSize: 0\n    m_UV:\n      m_NumItems: 0\n      m_Range: 0\n      m_Start: 0\n      m_Data: \n      m_BitSize: 0\n    m_Normals:\n      m_NumItems: 0\n      m_Range: 0\n      m_Start: 0\n      m_Data: \n      m_BitSize: 0\n    m_Tangents:\n      m_NumItems: 0\n      m_Range: 0\n      m_Start: 0\n      m_Data: \n      m_BitSize: 0\n    m_Weights:\n      m_NumItems: 0\n      m_Data: \n      m_BitSize: 0\n    m_NormalSigns:\n      m_NumItems: 0\n      m_Data: \n      m_BitSize: 0\n    m_TangentSigns:\n      m_NumItems: 0\n      m_Data: \n      m_BitSize: 0\n    m_FloatColors:\n      m_NumItems: 0\n      m_Range: 0\n      m_Start: 0\n      m_Data: \n      m_BitSize: 0\n    m_BoneIndices:\n      m_NumItems: 0\n      m_Data: \n      m_BitSize: 0\n    m_Triangles:\n      m_NumItems: 0\n      m_Data: \n      m_BitSize: 0\n    m_UVInfo: 0\n";

/// The stream-data and LOD block that closes every Mesh body.
pub const STREAM_AND_LOD_TAIL: &'static str = "  m_StreamData:\n    serializedVersion: 2\n    offset: 0\n    size: 0\n    path: \n  m_MeshLodInfo:\n    serializedVersion: 2\n    m_LodSelectionCurve:\n      serializedVersion: 1\n      m_LodSlope: 0\n      m_LodBias: 0\n    m_NumLevels: 1\n    m_SubMeshes:\n    - serializedVersion: 2\n      m_Levels:\n      - serializedVersion: 1\n        m_IndexStart: 0\n        m_IndexCount: 0\n";

/// One Mesh sub-asset in plain values: its `fileID`, vertex layout, the
/// `m_KeepVertices` / `m_KeepIndices` flags, the index buffer, the vertex
/// count and interleaved vertex buffer, and the bounding box's center and
/// extent, each coordinate as the asset writes it.
pub struct MeshText {
    pub file_id: i64,
    pub used_in_canvas: bool,
    pub keep_vertices: bool,
    pub keep_indices: bool,
    pub indices: Vec<u16>,
    pub vertex_count: usize,
    pub vertex_data: Vec<u8>,
    pub center: (String, String, String),
    pub extent: (String, String, String),
}

/// Bytes per vertex: position f32x3 + color 4 bytes + uv f32x2 on a
/// canvas, position f32x3 + uv half2 on a sprite renderer.
pub open spec fn vertex_stride(canvas: bool) -> nat {
    if canvas { 24 } else { 16 }
}

impl MeshText {
    /// The vertex buffer holds `vertex_count` vertices of its layout.
    pub open spec fn wf(&self) -> bool {
        self.vertex_data@.len() == self.vertex_count * vertex_stride(self.used_in_canvas)
    }
}

/// `{x: …, y: …, z: …}`.
pub open spec fn xyz(v: (Seq<char>, Seq<char>, Seq<char>)) -> Seq<char> {
    "{x: "@ + v.0 + ", y: "@ + v.1 + ", z: "@ + v.2 + "}"@
}

/// A flag as the asset writes it.
pub open spec fn bit_text(b: bool) -> Seq<char> {
    if b { "1"@ } else { "0"@ }
}

pub open spec fn texts3(v: (String, String, String)) -> (Seq<char>, Seq<char>, Seq<char>) {
    (v.0@, v.1@, v.2@)
}

/// The body up to the bounding box of the submesh.
pub open spec fn body_head(ic: nat, vc: nat, c: (Seq<char>, Seq<char>, Seq<char>), e: (Seq<char>, Seq<char>, Seq<char>)) -> Seq<char> {
    "Mesh:\n  m_ObjectHideFlags: 0\n  m_CorrespondingSourceObject: {fileID: 0}\n  m_PrefabInstance: {fileID: 0}\n  m_PrefabAsset: {fileID: 0}\n  m_Name: \n  serializedVersion: 12\n  m_SubMeshes:\n  - serializedVersion: 2\n    firstByte: 0\n    indexCount: "@ + dec_digits(ic) + "\n    topology: 0\n    baseVertex: 0\n    firstVertex: 0\n    vertexCount: "@ + dec_digits(vc)
        + "\n    localAABB:\n      m_Center: "@ + xyz(c) + "\n      m_Extent: "@ + xyz(e) + "\n"@
}

/// The body from the shapes to the index buffer.
pub open spec fn body_middle(canvas: bool, kv: bool, ki: bool, indices: Seq<u16>) -> Seq<char> {
    "  m_Shapes:\n    vertices: []\n    shapes: []\n    channels: []\n    fullWeights: []\n  m_BindPose: []\n  m_BoneNameHashes: \n  m_RootBoneNameHash: 0\n  m_BonesAABB: []\n  m_VariableBoneCountWeights:\n    m_Data: \n  m_MeshCompression: 0\n  m_IsReadable: "@ + bit_text(canvas) + "\n  m_KeepVertices: "@ + bit_text(kv)
        + "\n  m_KeepIndices: "@ + bit_text(ki) + "\n  m_IndexFormat: 0\n  m_IndexBuffer: "@
        + hex_lower(index_bytes(indices)) + "\n"@
}

/// The channel table of a layout.
pub open spec fn layout_channels(canvas: bool) -> Seq<char> {
    if canvas {
        channels_text(|i: int| canvas_channel(i), 14)
    } else {
        channels_text(|i: int| sprite_channel(i), 14)
    }
}

/// The vertex-data block.
pub open spec fn body_vertex_data(canvas: bool, vc: nat, vbo: Seq<u8>) -> Seq<char> {
    "  m_VertexData:\n    serializedVersion: 3\n    m_VertexCount: "@ + dec_digits(vc)
        + "\n    m_Channels:\n"@ + layout_channels(canvas) + "    m_DataSize: "@ + dec_digits(
        vc * vertex_stride(canvas),
    ) + "\n    _typelessdata: "@ + hex_lower(vbo) + "\n"@
}

/// The body from the compressed mesh to its end.
pub open spec fn body_tail(c: (Seq<char>, Seq<char>, Seq<char>), e: (Seq<char>, Seq<char>, Seq<char>)) -> Seq<char> {
    "  m_CompressedMesh:\n"@ + EMPTY_COMPRESSED_MESH@ + "  m_LocalAABB:\n    m_Center: "@ + xyz(c)
        + "\n    m_Extent: "@ + xyz(e) + "\n  m_MeshUsageFlags: 0\n  m_CookingOptions: 30\n  m_BakedConvexCollisionMesh: \n  m_BakedTriangleCollisionMesh: \n  'm_MeshMetrics[0]': 1\n  'm_MeshMetrics[1]': 1\n  m_MeshOptimizationFlags: 1\n"@ + STREAM_AND_LOD_TAIL@
}

/// One Mesh sub-asset's YAML body: everything after its
/// `--- !u!43 &<fileID>` line.
pub open spec fn mesh_body(m: MeshText) -> Seq<char> {
    body_head(m.indices@.len(), m.vertex_count as nat, texts3(m.center), texts3(m.extent))
        + body_middle(m.used_in_canvas, m.keep_vertices, m.keep_indices, m.indices@)
        + body_vertex_data(m.used_in_canvas, m.vertex_count as nat, m.vertex_data@)
        + body_tail(texts3(m.center), texts3(m.extent))
}

fn append_dec(s: &mut String, n: usize)
    ensures
        final(s)@ == old(s)@ + dec_digits(n as nat),
{
    let mut v: Vec<char> = Vec::new();
    push_dec_digits(n as u64, &mut v);
    assert(v@ =~= dec_digits(n as nat));
    let t = string_of(&v);
    s.append(t.as_str());
}

fn append_xyz(s: &mut String, v: &(String, String, String))
    ensures
        final(s)@ == old(s)@ + xyz(texts3(*v)),
{
    s.append("{x: ");
    s.append(v.0.as_str());
    s.append(", y: ");
    s.append(v.1.as_str());
    s.append(", z: ");
    s.append(v.2.as_str());
    s.append("}");
    assert(s@ =~= old(s)@ + xyz(texts3(*v)));
}

fn append_bit(s: &mut String, b: bool)
    ensures
        final(s)@ == old(s)@ + bit_text(b),
{
    if b {
        s.append("1");
    } else {
        s.append("0");
    }
}

/// Append the bytes as lowercase hex, two digits each (`{:02x}`).
fn encode_bytes_hex(bytes: &[u8], s: &mut String)
    ensures
        final(s)@ == old(s)@ + hex_lower(bytes@),
{
    let mut i: usize = 0;
    while i < bytes.len()
        invariant
            i <= bytes@.len(),
            s@ == old(s)@ + hex_lower(bytes@.take(i as int)),
        decreases bytes@.len() - i,
    {
        let b = bytes[i];
        let mut v: Vec<char> = Vec::new();
        v.push(hex_digit(b / 16));
        v.push(hex_digit(b % 16));
        let piece = string_of(v.as_slice());
        s.append(piece.as_str());
        proof {
            let t = bytes@.take(i + 1);
            assert(t.drop_last() =~= bytes@.take(i as int));
            assert(t.last() == b);
            assert(s@ =~= old(s)@ + hex_lower(t));
        }
        i = i + 1;
    }
    proof {
        assert(bytes@.take(bytes@.len() as int) =~= bytes@);
    }
}

fn hex_digit(n: u8) -> (c: char)
    requires
        n < 16,
    ensures
        c == hex_digit_lower(n as int),
{
    if n < 10 {
        (n + 48) as char
    } else {
        (n + 87) as char
    }
}

fn append_head(s: &mut String, m: &MeshText)
    ensures
        final(s)@ == old(s)@ + body_head(m.indices@.len(), m.vertex_count as nat, texts3(m.center), texts3(m.extent)),
{
    let vc = m.vertex_count;
    let ic = m.indices.len();
    s.append("Mesh:\n  m_ObjectHideFlags: 0\n  m_CorrespondingSourceObject: {fileID: 0}\n  m_PrefabInstance: {fileID: 0}\n  m_PrefabAsset: {fileID: 0}\n  m_Name: \n  serializedVersion: 12\n  m_SubMeshes:\n  - serializedVersion: 2\n    firstByte: 0\n    indexCount: ");
    append_dec(s, ic);
    s.append("\n    topology: 0\n    baseVertex: 0\n    firstVertex: 0\n    vertexCount: ");
    append_dec(s, vc);
    s.append("\n    localAABB:\n      m_Center: ");
    append_xyz(s, &m.center);
    s.append("\n      m_Extent: ");
    append_xyz(s, &m.extent);
    s.append("\n");
    assert(s@ =~= old(s)@ + body_head(ic as nat, vc as nat, texts3(m.center), texts3(m.extent)));
}

fn append_middle(s: &mut String, m: &MeshText)
    ensures
        final(s)@ == old(s)@ + body_middle(m.used_in_canvas, m.keep_vertices, m.keep_indices, m.indices@),
{
    s.append("  m_Shapes:\n    vertices: []\n    shapes: []\n    channels: []\n    fullWeights: []\n  m_BindPose: []\n  m_BoneNameHashes: \n  m_RootBoneNameHash: 0\n  m_BonesAABB: []\n  m_VariableBoneCountWeights:\n    m_Data: \n  m_MeshCompression: 0\n  m_IsReadable: ");
    append_bit(s, m.used_in_canvas);
    s.append("\n  m_KeepVertices: ");
    append_bit(s, m.keep_vertices);
    s.append("\n  m_KeepIndices: ");
    append_bit(s, m.keep_indices);
    s.append("\n  m_IndexFormat: 0\n  m_IndexBuffer: ");
    encode_index_buffer(m.indices.as_slice(), s);
    s.append("\n");
    assert(s@ =~= old(s)@ + body_middle(m.used_in_canvas, m.keep_vertices, m.keep_indices, m.indices@));
}

fn append_vertex_data(s: &mut String, m: &MeshText)
    requires
        m.wf(),
    ensures
        final(s)@ == old(s)@ + body_vertex_data(m.used_in_canvas, m.vertex_count as nat, m.vertex_data@),
{
    let vc = m.vertex_count;
    s.append("  m_VertexData:\n    serializedVersion: 3\n    m_VertexCount: ");
    append_dec(s, vc);
    s.append("\n    m_Channels:\n");
    if m.used_in_canvas {
        emit_channels_canvas(s);
    } else {
        emit_channels_sprite(s);
    }
    s.append("    m_DataSize: ");
    append_dec(s, m.vertex_data.len());
    s.append("\n    _typelessdata: ");
    encode_bytes_hex(m.vertex_data.as_slice(), s);
    s.append("\n");
    assert(s@ =~= old(s)@ + body_vertex_data(m.used_in_canvas, vc as nat, m.vertex_data@));
}

fn append_tail(s: &mut String, m: &MeshText)
    ensures
        final(s)@ == old(s)@ + body_tail(texts3(m.center), texts3(m.extent)),
{
    s.append("  m_CompressedMesh:\n");
    s.append(EMPTY_COMPRESSED_MESH);
    s.append("  m_LocalAABB:\n    m_Center: ");
    append_xyz(s, &m.center);
    s.append("\n    m_Extent: ");
    append_xyz(s, &m.extent);
    s.append("\n  m_MeshUsageFlags: 0\n  m_CookingOptions: 30\n  m_BakedConvexCollisionMesh: \n  m_BakedTriangleCollisionMesh: \n  'm_MeshMetrics[0]': 1\n  'm_MeshMetrics[1]': 1\n  m_MeshOptimizationFlags: 1\n");
    s.append(STREAM_AND_LOD_TAIL);
    assert(s@ =~= old(s)@ + body_tail(texts3(m.center), texts3(m.extent)));
}

fn append_body(s: &mut String, m: &MeshText)
    requires
        m.wf(),
    ensures
        final(s)@ == old(s)@ + mesh_body(*m),
{
    append_head(s, m);
    append_middle(s, m);
    append_vertex_data(s, m);
    append_tail(s, m);
    assert(s@ =~= old(s)@ + mesh_body(*m));
}

/// One Mesh sub-asset's body in the CanvasRenderer layout (position f32x3,
/// color, uv0 f32x2: a 24-byte stride, `m_IsReadable: 1`).
pub fn emit_mesh_body_canvas(m: &MeshText) -> (r: String)
    requires
        m.used_in_canvas,
        m.wf(),
    ensures
        r@ == mesh_body(*m),
{
    let mut s = String::new();
    append_body(&mut s, m);
    s
}

/// One Mesh sub-asset's body in the SpriteRenderer layout (position f32x3,
/// uv0 half2: a 16-byte stride, `m_IsReadable: 0`).
pub fn emit_mesh_body_sprite(m: &MeshText) -> (r: String)
    requires
        !m.used_in_canvas,
        m.wf(),
    ensures
        r@ == mesh_body(*m),
{
    let mut s = String::new();
    append_body(&mut s, m);
    s
}

/// The text of a multi-mesh `.asset`: the YAML header, then each mesh's
/// `--- !u!43 &<fileID>` line and body, in order.
pub open spec fn mesh_asset_text(meshes: Seq<MeshText>) -> Seq<char>
    decreases meshes.len(),
{
    if meshes.len() == 0 {
        "%YAML 1.1\n%TAG !u! tag:unity3d.com,2011:\n"@
    } else {
        let m = meshes.last();
        mesh_asset_text(meshes.drop_last()) + "--- !u!43 &"@ + dec_i64(m.file_id) + "\n"@ + mesh_body(m)
    }
}

/// Emit a whole Mesh `.asset`: each mesh in the layout its flag selects.
pub fn emit_mesh_asset(meshes: &[MeshText]) -> (r: Vec<u8>)
    requires
        forall|i: int| 0 <= i < meshes@.len() ==> (#[trigger] meshes@[i]).wf(),
    ensures
        r@ == vstd::utf8::encode_utf8(mesh_asset_text(meshes@)),
{
    let mut s = String::new();
    s.append("%YAML 1.1\n%TAG !u! tag:unity3d.com,2011:\n");
    let mut i: usize = 0;
    while i < meshes.len()
        invariant
            i <= meshes@.len(),
            forall|k: int| 0 <= k < meshes@.len() ==> (#[trigger] meshes@[k]).wf(),
            s@ == mesh_asset_text(meshes@.take(i as int)),
        decreases meshes@.len() - i,
    {
        let m = &meshes[i];
        s.append("--- !u!43 &");
        let mut v: Vec<char> = Vec::new();
        push_dec_i64(m.file_id, &mut v);
        assert(v@ =~= dec_i64(m.file_id));
        let t = string_of(&v);
        s.append(t.as_str());
        s.append("\n");
        if m.used_in_canvas {
            s.append(emit_mesh_body_canvas(m).as_str());
        } else {
            s.append(emit_mesh_body_sprite(m).as_str());
        }
        proof {
            let p = meshes@.take(i + 1);
            assert(p.drop_last() =~= meshes@.take(i as int));
            assert(p.last() == meshes@[i as int]);
        }
        i = i + 1;
    }
    proof {
        assert(meshes@.take(meshes@.len() as int) =~= meshes@);
    }
    s.as_str().as_bytes_vec()
}

/// The CanvasRenderer vertex buffer of the first `n` vertices: each
/// vertex's position bytes, color bytes (R, G, B, A), then uv bytes.
pub open spec fn canvas_vertex_bytes(pos: Seq<[u8; 12]>, colors: Seq<[u8; 4]>, uvs: Seq<[u8; 8]>, n: nat) -> Seq<u8>
    decreases n,
{
    if n == 0 {
        Seq::empty()
    } else {
        let k = n - 1;
        canvas_vertex_bytes(pos, colors, uvs, k as nat) + pos[k]@ + colors[k]@ + uvs[k]@
    }
}

/// The SpriteRenderer vertex buffer of the first `n` vertices: each
/// vertex's position bytes, then its half2 uv bytes.
pub open spec fn sprite_vertex_bytes(pos: Seq<[u8; 12]>, uvs: Seq<[u8; 4]>, n: nat) -> Seq<u8>
    decreases n,
{
    if n == 0 {
        Seq::empty()
    } else {
        let k = n - 1;
        sprite_vertex_bytes(pos, uvs, k as nat) + pos[k]@ + uvs[k]@
    }
}

/// Interleave a canvas mesh's vertex buffer from each vertex's position
/// (three little-endian f32), color and uv (two little-endian f32) bytes.
pub fn encode_vbo_canvas(pos: &[[u8; 12]], colors: &[[u8; 4]], uvs: &[[u8; 8]]) -> (r: Vec<u8>)
    requires
        colors@.len() == pos@.len(),
        uvs@.len() == pos@.len(),
    ensures
        r@ == canvas_vertex_bytes(pos@, colors@, uvs@, pos@.len()),
        r@.len() == pos@.len() * 24,
{
    let mut out: Vec<u8> = Vec::new();
    let mut i: usize = 0;
    while i < pos.len()
        invariant
            i <= pos@.len(),
            colors@.len() == pos@.len(),
            uvs@.len() == pos@.len(),
            out@ == canvas_vertex_bytes(pos@, colors@, uvs@, i as nat),
            out@.len() == i * 24,
        decreases pos@.len() - i,
    {
        append_bytes(&mut out, &pos[i]);
        append_bytes(&mut out, &colors[i]);
        append_bytes(&mut out, &uvs[i]);
        i = i + 1;
    }
    out
}

/// Interleave a sprite-renderer mesh's vertex buffer from each vertex's
/// position (three little-endian f32) and half2 uv bytes.
pub fn encode_vbo_sprite(pos: &[[u8; 12]], uvs: &[[u8; 4]]) -> (r: Vec<u8>)
    requires
        uvs@.len() == pos@.len(),
    ensures
        r@ == sprite_vertex_bytes(pos@, uvs@, pos@.len()),
        r@.len() == pos@.len() * 16,
{
    let mut out: Vec<u8> = Vec::new();
    let mut i: usize = 0;
    while i < pos.len()
        invariant
            i <= pos@.len(),
            uvs@.len() == pos@.len(),
            out@ == sprite_vertex_bytes(pos@, uvs@, i as nat),
            out@.len() == i * 16,
        decreases pos@.len() - i,
    {
        append_bytes(&mut out, &pos[i]);
        append_bytes(&mut out, &uvs[i]);
        i = i + 1;
    }
    out
}

} // verus!
