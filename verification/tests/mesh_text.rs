use unity_sprite_author::mesh_text::{
    emit_mesh_asset, emit_mesh_body_canvas, emit_mesh_body_sprite, encode_vbo_canvas, encode_vbo_sprite, MeshText,
};

fn le3(v: [f32; 3]) -> [u8; 12] {
    let mut out = [0u8; 12];
    for (k, c) in v.iter().enumerate() {
        out[k * 4..k * 4 + 4].copy_from_slice(&c.to_le_bytes());
    }
    out
}

fn le2(v: [f32; 2]) -> [u8; 8] {
    let mut out = [0u8; 8];
    for (k, c) in v.iter().enumerate() {
        out[k * 4..k * 4 + 4].copy_from_slice(&c.to_le_bytes());
    }
    out
}

fn s3(a: &str, b: &str, c: &str) -> (String, String, String) {
    (a.to_string(), b.to_string(), c.to_string())
}

fn canvas_mesh() -> MeshText {
    let pos = [le3([0.5, -1.0, 0.0]), le3([1.0, 2.0, 0.0])];
    let colors = [[255u8, 128, 0, 255], [1, 2, 3, 4]];
    let uvs = [le2([0.25, 1.0]), le2([0.75, 0.0])];
    MeshText {
        file_id: -8704840387945618417,
        used_in_canvas: true,
        keep_vertices: true,
        keep_indices: false,
        indices: vec![0, 1, 1, 258],
        vertex_count: 2,
        vertex_data: encode_vbo_canvas(&pos, &colors, &uvs),
        center: s3("0.75", "0.5", "0"),
        extent: s3("0.25", "1.5", "0"),
    }
}

fn sprite_mesh() -> MeshText {
    let pos = [le3([0.5, -1.0, 0.0])];
    let uvs = [[0x00u8, 0x34, 0x00, 0x3c]];
    MeshText {
        file_id: 42,
        used_in_canvas: false,
        keep_vertices: false,
        keep_indices: true,
        indices: vec![0, 0, 0],
        vertex_count: 1,
        vertex_data: encode_vbo_sprite(&pos, &uvs),
        center: s3("0.5", "-1", "0"),
        extent: s3("0", "0", "0"),
    }
}

const CANVAS_BODY: &str = "Mesh:\n  m_ObjectHideFlags: 0\n  m_CorrespondingSourceObject: {fileID: 0}\n  m_PrefabInstance: {fileID: 0}\n  m_PrefabAsset: {fileID: 0}\n  m_Name: \n  serializedVersion: 12\n  m_SubMeshes:\n  - serializedVersion: 2\n    firstByte: 0\n    indexCount: 4\n    topology: 0\n    baseVertex: 0\n    firstVertex: 0\n    vertexCount: 2\n    localAABB:\n      m_Center: {x: 0.75, y: 0.5, z: 0}\n      m_Extent: {x: 0.25, y: 1.5, z: 0}\n  m_Shapes:\n    vertices: []\n    shapes: []\n    channels: []\n    fullWeights: []\n  m_BindPose: []\n  m_BoneNameHashes: \n  m_RootBoneNameHash: 0\n  m_BonesAABB: []\n  m_VariableBoneCountWeights:\n    m_Data: \n  m_MeshCompression: 0\n  m_IsReadable: 1\n  m_KeepVertices: 1\n  m_KeepIndices: 0\n  m_IndexFormat: 0\n  m_IndexBuffer: 0000010001000201\n  m_VertexData:\n    serializedVersion: 3\n    m_VertexCount: 2\n    m_Channels:\n    - stream: 0\n      offset: 0\n      format: 0\n      dimension: 3\n    - stream: 0\n      offset: 0\n      format: 0\n      dimension: 0\n    - stream: 0\n      offset: 0\n      format: 0\n      dimension: 0\n    - stream: 0\n      offset: 12\n      format: 2\n      dimension: 4\n    - stream: 0\n      offset: 16\n      format: 0\n      dimension: 2\n    - stream: 0\n      offset: 0\n      format: 0\n      dimension: 0\n    - stream: 0\n      offset: 0\n      format: 0\n      dimension: 0\n    - stream: 0\n      offset: 0\n      format: 0\n      dimension: 0\n    - stream: 0\n      offset: 0\n      format: 0\n      dimension: 0\n    - stream: 0\n      offset: 0\n      format: 0\n      dimension: 0\n    - stream: 0\n      offset: 0\n      format: 0\n      dimension: 0\n    - stream: 0\n      offset: 0\n      format: 0\n      dimension: 0\n    - stream: 0\n      offset: 0\n      format: 0\n      dimension: 0\n    - stream: 0\n      offset: 0\n      format: 0\n      dimension: 0\n    m_DataSize: 48\n    _typelessdata: 0000003f000080bf00000000ff8000ff0000803e0000803f0000803f0000004000000000010203040000403f00000000\n  m_CompressedMesh:\n    m_Vertices:\n      m_NumItems: 0\n      m_Range: 0\n      m_Start: 0\n      m_Data: \n      m_BitSize: 0\n    m_UV:\n      m_NumItems: 0\n      m_Range: 0\n      m_Start: 0\n      m_Data: \n      m_BitSize: 0\n    m_Normals:\n      m_NumItems: 0\n      m_Range: 0\n      m_Start: 0\n      m_Data: \n      m_BitSize: 0\n    m_Tangents:\n      m_NumItems: 0\n      m_Range: 0\n      m_Start: 0\n      m_Data: \n      m_BitSize: 0\n    m_Weights:\n      m_NumItems: 0\n      m_Data: \n      m_BitSize: 0\n    m_NormalSigns:\n      m_NumItems: 0\n      m_Data: \n      m_BitSize: 0\n    m_TangentSigns:\n      m_NumItems: 0\n      m_Data: \n      m_BitSize: 0\n    m_FloatColors:\n      m_NumItems: 0\n      m_Range: 0\n      m_Start: 0\n      m_Data: \n      m_BitSize: 0\n    m_BoneIndices:\n      m_NumItems: 0\n      m_Data: \n      m_BitSize: 0\n    m_Triangles:\n      m_NumItems: 0\n      m_Data: \n      m_BitSize: 0\n    m_UVInfo: 0\n  m_LocalAABB:\n    m_Center: {x: 0.75, y: 0.5, z: 0}\n    m_Extent: {x: 0.25, y: 1.5, z: 0}\n  m_MeshUsageFlags: 0\n  m_CookingOptions: 30\n  m_BakedConvexCollisionMesh: \n  m_BakedTriangleCollisionMesh: \n  'm_MeshMetrics[0]': 1\n  'm_MeshMetrics[1]': 1\n  m_MeshOptimizationFlags: 1\n  m_StreamData:\n    serializedVersion: 2\n    offset: 0\n    size: 0\n    path: \n  m_MeshLodInfo:\n    serializedVersion: 2\n    m_LodSelectionCurve:\n      serializedVersion: 1\n      m_LodSlope: 0\n      m_LodBias: 0\n    m_NumLevels: 1\n    m_SubMeshes:\n    - serializedVersion: 2\n      m_Levels:\n      - serializedVersion: 1\n        m_IndexStart: 0\n        m_IndexCount: 0\n";

const SPRITE_BODY: &str = "Mesh:\n  m_ObjectHideFlags: 0\n  m_CorrespondingSourceObject: {fileID: 0}\n  m_PrefabInstance: {fileID: 0}\n  m_PrefabAsset: {fileID: 0}\n  m_Name: \n  serializedVersion: 12\n  m_SubMeshes:\n  - serializedVersion: 2\n    firstByte: 0\n    indexCount: 3\n    topology: 0\n    baseVertex: 0\n    firstVertex: 0\n    vertexCount: 1\n    localAABB:\n      m_Center: {x: 0.5, y: -1, z: 0}\n      m_Extent: {x: 0, y: 0, z: 0}\n  m_Shapes:\n    vertices: []\n    shapes: []\n    channels: []\n    fullWeights: []\n  m_BindPose: []\n  m_BoneNameHashes: \n  m_RootBoneNameHash: 0\n  m_BonesAABB: []\n  m_VariableBoneCountWeights:\n    m_Data: \n  m_MeshCompression: 0\n  m_IsReadable: 0\n  m_KeepVertices: 0\n  m_KeepIndices: 1\n  m_IndexFormat: 0\n  m_IndexBuffer: 000000000000\n  m_VertexData:\n    serializedVersion: 3\n    m_VertexCount: 1\n    m_Channels:\n    - stream: 0\n      offset: 0\n      format: 0\n      dimension: 3\n    - stream: 0\n      offset: 0\n      format: 0\n      dimension: 0\n    - stream: 0\n      offset: 0\n      format: 0\n      dimension: 0\n    - stream: 0\n      offset: 0\n      format: 0\n      dimension: 0\n    - stream: 0\n      offset: 12\n      format: 1\n      dimension: 2\n    - stream: 0\n      offset: 0\n      format: 0\n      dimension: 0\n    - stream: 0\n      offset: 0\n      format: 0\n      dimension: 0\n    - stream: 0\n      offset: 0\n      format: 0\n      dimension: 0\n    - stream: 0\n      offset: 0\n      format: 0\n      dimension: 0\n    - stream: 0\n      offset: 0\n      format: 0\n      dimension: 0\n    - stream: 0\n      offset: 0\n      format: 0\n      dimension: 0\n    - stream: 0\n      offset: 0\n      format: 0\n      dimension: 0\n    - stream: 0\n      offset: 0\n      format: 0\n      dimension: 0\n    - stream: 0\n      offset: 0\n      format: 0\n      dimension: 0\n    m_DataSize: 16\n    _typelessdata: 0000003f000080bf000000000034003c\n  m_CompressedMesh:\n    m_Vertices:\n      m_NumItems: 0\n      m_Range: 0\n      m_Start: 0\n      m_Data: \n      m_BitSize: 0\n    m_UV:\n      m_NumItems: 0\n      m_Range: 0\n      m_Start: 0\n      m_Data: \n      m_BitSize: 0\n    m_Normals:\n      m_NumItems: 0\n      m_Range: 0\n      m_Start: 0\n      m_Data: \n      m_BitSize: 0\n    m_Tangents:\n      m_NumItems: 0\n      m_Range: 0\n      m_Start: 0\n      m_Data: \n      m_BitSize: 0\n    m_Weights:\n      m_NumItems: 0\n      m_Data: \n      m_BitSize: 0\n    m_NormalSigns:\n      m_NumItems: 0\n      m_Data: \n      m_BitSize: 0\n    m_TangentSigns:\n      m_NumItems: 0\n      m_Data: \n      m_BitSize: 0\n    m_FloatColors:\n      m_NumItems: 0\n      m_Range: 0\n      m_Start: 0\n      m_Data: \n      m_BitSize: 0\n    m_BoneIndices:\n      m_NumItems: 0\n      m_Data: \n      m_BitSize: 0\n    m_Triangles:\n      m_NumItems: 0\n      m_Data: \n      m_BitSize: 0\n    m_UVInfo: 0\n  m_LocalAABB:\n    m_Center: {x: 0.5, y: -1, z: 0}\n    m_Extent: {x: 0, y: 0, z: 0}\n  m_MeshUsageFlags: 0\n  m_CookingOptions: 30\n  m_BakedConvexCollisionMesh: \n  m_BakedTriangleCollisionMesh: \n  'm_MeshMetrics[0]': 1\n  'm_MeshMetrics[1]': 1\n  m_MeshOptimizationFlags: 1\n  m_StreamData:\n    serializedVersion: 2\n    offset: 0\n    size: 0\n    path: \n  m_MeshLodInfo:\n    serializedVersion: 2\n    m_LodSelectionCurve:\n      serializedVersion: 1\n      m_LodSlope: 0\n      m_LodBias: 0\n    m_NumLevels: 1\n    m_SubMeshes:\n    - serializedVersion: 2\n      m_Levels:\n      - serializedVersion: 1\n        m_IndexStart: 0\n        m_IndexCount: 0\n";

const ASSET: &str = "%YAML 1.1\n%TAG !u! tag:unity3d.com,2011:\n--- !u!43 &-8704840387945618417\nMesh:\n  m_ObjectHideFlags: 0\n  m_CorrespondingSourceObject: {fileID: 0}\n  m_PrefabInstance: {fileID: 0}\n  m_PrefabAsset: {fileID: 0}\n  m_Name: \n  serializedVersion: 12\n  m_SubMeshes:\n  - serializedVersion: 2\n    firstByte: 0\n    indexCount: 4\n    topology: 0\n    baseVertex: 0\n    firstVertex: 0\n    vertexCount: 2\n    localAABB:\n      m_Center: {x: 0.75, y: 0.5, z: 0}\n      m_Extent: {x: 0.25, y: 1.5, z: 0}\n  m_Shapes:\n    vertices: []\n    shapes: []\n    channels: []\n    fullWeights: []\n  m_BindPose: []\n  m_BoneNameHashes: \n  m_RootBoneNameHash: 0\n  m_BonesAABB: []\n  m_VariableBoneCountWeights:\n    m_Data: \n  m_MeshCompression: 0\n  m_IsReadable: 1\n  m_KeepVertices: 1\n  m_KeepIndices: 0\n  m_IndexFormat: 0\n  m_IndexBuffer: 0000010001000201\n  m_VertexData:\n    serializedVersion: 3\n    m_VertexCount: 2\n    m_Channels:\n    - stream: 0\n      offset: 0\n      format: 0\n      dimension: 3\n    - stream: 0\n      offset: 0\n      format: 0\n      dimension: 0\n    - stream: 0\n      offset: 0\n      format: 0\n      dimension: 0\n    - stream: 0\n      offset: 12\n      format: 2\n      dimension: 4\n    - stream: 0\n      offset: 16\n      format: 0\n      dimension: 2\n    - stream: 0\n      offset: 0\n      format: 0\n      dimension: 0\n    - stream: 0\n      offset: 0\n      format: 0\n      dimension: 0\n    - stream: 0\n      offset: 0\n      format: 0\n      dimension: 0\n    - stream: 0\n      offset: 0\n      format: 0\n      dimension: 0\n    - stream: 0\n      offset: 0\n      format: 0\n      dimension: 0\n    - stream: 0\n      offset: 0\n      format: 0\n      dimension: 0\n    - stream: 0\n      offset: 0\n      format: 0\n      dimension: 0\n    - stream: 0\n      offset: 0\n      format: 0\n      dimension: 0\n    - stream: 0\n      offset: 0\n      format: 0\n      dimension: 0\n    m_DataSize: 48\n    _typelessdata: 0000003f000080bf00000000ff8000ff0000803e0000803f0000803f0000004000000000010203040000403f00000000\n  m_CompressedMesh:\n    m_Vertices:\n      m_NumItems: 0\n      m_Range: 0\n      m_Start: 0\n      m_Data: \n      m_BitSize: 0\n    m_UV:\n      m_NumItems: 0\n      m_Range: 0\n      m_Start: 0\n      m_Data: \n      m_BitSize: 0\n    m_Normals:\n      m_NumItems: 0\n      m_Range: 0\n      m_Start: 0\n      m_Data: \n      m_BitSize: 0\n    m_Tangents:\n      m_NumItems: 0\n      m_Range: 0\n      m_Start: 0\n      m_Data: \n      m_BitSize: 0\n    m_Weights:\n      m_NumItems: 0\n      m_Data: \n      m_BitSize: 0\n    m_NormalSigns:\n      m_NumItems: 0\n      m_Data: \n      m_BitSize: 0\n    m_TangentSigns:\n      m_NumItems: 0\n      m_Data: \n      m_BitSize: 0\n    m_FloatColors:\n      m_NumItems: 0\n      m_Range: 0\n      m_Start: 0\n      m_Data: \n      m_BitSize: 0\n    m_BoneIndices:\n      m_NumItems: 0\n      m_Data: \n      m_BitSize: 0\n    m_Triangles:\n      m_NumItems: 0\n      m_Data: \n      m_BitSize: 0\n    m_UVInfo: 0\n  m_LocalAABB:\n    m_Center: {x: 0.75, y: 0.5, z: 0}\n    m_Extent: {x: 0.25, y: 1.5, z: 0}\n  m_MeshUsageFlags: 0\n  m_CookingOptions: 30\n  m_BakedConvexCollisionMesh: \n  m_BakedTriangleCollisionMesh: \n  'm_MeshMetrics[0]': 1\n  'm_MeshMetrics[1]': 1\n  m_MeshOptimizationFlags: 1\n  m_StreamData:\n    serializedVersion: 2\n    offset: 0\n    size: 0\n    path: \n  m_MeshLodInfo:\n    serializedVersion: 2\n    m_LodSelectionCurve:\n      serializedVersion: 1\n      m_LodSlope: 0\n      m_LodBias: 0\n    m_NumLevels: 1\n    m_SubMeshes:\n    - serializedVersion: 2\n      m_Levels:\n      - serializedVersion: 1\n        m_IndexStart: 0\n        m_IndexCount: 0\n--- !u!43 &42\nMesh:\n  m_ObjectHideFlags: 0\n  m_CorrespondingSourceObject: {fileID: 0}\n  m_PrefabInstance: {fileID: 0}\n  m_PrefabAsset: {fileID: 0}\n  m_Name: \n  serializedVersion: 12\n  m_SubMeshes:\n  - serializedVersion: 2\n    firstByte: 0\n    indexCount: 3\n    topology: 0\n    baseVertex: 0\n    firstVertex: 0\n    vertexCount: 1\n    localAABB:\n      m_Center: {x: 0.5, y: -1, z: 0}\n      m_Extent: {x: 0, y: 0, z: 0}\n  m_Shapes:\n    vertices: []\n    shapes: []\n    channels: []\n    fullWeights: []\n  m_BindPose: []\n  m_BoneNameHashes: \n  m_RootBoneNameHash: 0\n  m_BonesAABB: []\n  m_VariableBoneCountWeights:\n    m_Data: \n  m_MeshCompression: 0\n  m_IsReadable: 0\n  m_KeepVertices: 0\n  m_KeepIndices: 1\n  m_IndexFormat: 0\n  m_IndexBuffer: 000000000000\n  m_VertexData:\n    serializedVersion: 3\n    m_VertexCount: 1\n    m_Channels:\n    - stream: 0\n      offset: 0\n      format: 0\n      dimension: 3\n    - stream: 0\n      offset: 0\n      format: 0\n      dimension: 0\n    - stream: 0\n      offset: 0\n      format: 0\n      dimension: 0\n    - stream: 0\n      offset: 0\n      format: 0\n      dimension: 0\n    - stream: 0\n      offset: 12\n      format: 1\n      dimension: 2\n    - stream: 0\n      offset: 0\n      format: 0\n      dimension: 0\n    - stream: 0\n      offset: 0\n      format: 0\n      dimension: 0\n    - stream: 0\n      offset: 0\n      format: 0\n      dimension: 0\n    - stream: 0\n      offset: 0\n      format: 0\n      dimension: 0\n    - stream: 0\n      offset: 0\n      format: 0\n      dimension: 0\n    - stream: 0\n      offset: 0\n      format: 0\n      dimension: 0\n    - stream: 0\n      offset: 0\n      format: 0\n      dimension: 0\n    - stream: 0\n      offset: 0\n      format: 0\n      dimension: 0\n    - stream: 0\n      offset: 0\n      format: 0\n      dimension: 0\n    m_DataSize: 16\n    _typelessdata: 0000003f000080bf000000000034003c\n  m_CompressedMesh:\n    m_Vertices:\n      m_NumItems: 0\n      m_Range: 0\n      m_Start: 0\n      m_Data: \n      m_BitSize: 0\n    m_UV:\n      m_NumItems: 0\n      m_Range: 0\n      m_Start: 0\n      m_Data: \n      m_BitSize: 0\n    m_Normals:\n      m_NumItems: 0\n      m_Range: 0\n      m_Start: 0\n      m_Data: \n      m_BitSize: 0\n    m_Tangents:\n      m_NumItems: 0\n      m_Range: 0\n      m_Start: 0\n      m_Data: \n      m_BitSize: 0\n    m_Weights:\n      m_NumItems: 0\n      m_Data: \n      m_BitSize: 0\n    m_NormalSigns:\n      m_NumItems: 0\n      m_Data: \n      m_BitSize: 0\n    m_TangentSigns:\n      m_NumItems: 0\n      m_Data: \n      m_BitSize: 0\n    m_FloatColors:\n      m_NumItems: 0\n      m_Range: 0\n      m_Start: 0\n      m_Data: \n      m_BitSize: 0\n    m_BoneIndices:\n      m_NumItems: 0\n      m_Data: \n      m_BitSize: 0\n    m_Triangles:\n      m_NumItems: 0\n      m_Data: \n      m_BitSize: 0\n    m_UVInfo: 0\n  m_LocalAABB:\n    m_Center: {x: 0.5, y: -1, z: 0}\n    m_Extent: {x: 0, y: 0, z: 0}\n  m_MeshUsageFlags: 0\n  m_CookingOptions: 30\n  m_BakedConvexCollisionMesh: \n  m_BakedTriangleCollisionMesh: \n  'm_MeshMetrics[0]': 1\n  'm_MeshMetrics[1]': 1\n  m_MeshOptimizationFlags: 1\n  m_StreamData:\n    serializedVersion: 2\n    offset: 0\n    size: 0\n    path: \n  m_MeshLodInfo:\n    serializedVersion: 2\n    m_LodSelectionCurve:\n      serializedVersion: 1\n      m_LodSlope: 0\n      m_LodBias: 0\n    m_NumLevels: 1\n    m_SubMeshes:\n    - serializedVersion: 2\n      m_Levels:\n      - serializedVersion: 1\n        m_IndexStart: 0\n        m_IndexCount: 0\n";

#[test]
fn vbo_canvas_interleaves_position_color_uv() {
    let m = canvas_mesh();
    assert_eq!(m.vertex_data.len(), 48);
    assert_eq!(&m.vertex_data[0..4], &0.5f32.to_le_bytes());
    assert_eq!(&m.vertex_data[12..16], &[255, 128, 0, 255]);
    assert_eq!(&m.vertex_data[16..20], &0.25f32.to_le_bytes());
    assert_eq!(&m.vertex_data[24..28], &1.0f32.to_le_bytes());
}

#[test]
fn canvas_body_is_byte_exact() {
    assert_eq!(emit_mesh_body_canvas(&canvas_mesh()), CANVAS_BODY);
}

#[test]
fn sprite_body_is_byte_exact() {
    let body = emit_mesh_body_sprite(&sprite_mesh());
    assert!(body.contains("  m_IsReadable: 0\n"));
    assert!(body.contains("    m_DataSize: 16\n"));
    assert_eq!(body, SPRITE_BODY);
}

#[test]
fn mesh_asset_headers_each_mesh() {
    let bytes = emit_mesh_asset(&[canvas_mesh(), sprite_mesh()]);
    assert_eq!(String::from_utf8(bytes).unwrap(), ASSET);
    let empty = emit_mesh_asset(&[]);
    assert_eq!(empty, b"%YAML 1.1\n%TAG !u! tag:unity3d.com,2011:\n".to_vec());
}
