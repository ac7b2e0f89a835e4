use krakatoa::buffer::{Buffer, BufferUsage, UploadAction};
use krakatoa::device::{
    choose_physical_device, find_memorytype_index, swapchain_image_count, QueueFamilies,
    QueueFamilyInfo,
};
use krakatoa::layout::{
    vertex_attributes, vertex_bindings, AttributeFormat, InputRate, INSTANCE_STRIDE, VERTEX_STRIDE,
};
use krakatoa::Model;

fn family(queue_count: u32, graphics: bool, transfer: bool, present: bool) -> QueueFamilyInfo {
    QueueFamilyInfo { queue_count, graphics, transfer, present }
}

#[test]
fn queue_families_prefer_dedicated_transfer() {
    let families = vec![
        family(1, true, true, true),
        family(1, false, true, false),
        family(1, true, true, false),
    ];
    let q = QueueFamilies::init(&families);
    assert_eq!(q.graphics_q_index, Some(0));
    assert_eq!(q.transfer_q_index, Some(1));
}

#[test]
fn queue_families_fall_back_to_first_transfer() {
    let families = vec![
        family(0, true, true, true),
        family(2, true, true, true),
        family(1, true, true, true),
    ];
    let q = QueueFamilies::init(&families);
    assert_eq!(q.graphics_q_index, Some(2));
    assert_eq!(q.transfer_q_index, Some(1));
}

#[test]
fn queue_families_none_found() {
    let families = vec![family(1, true, false, false), family(0, false, true, true)];
    let q = QueueFamilies::init(&families);
    assert_eq!(q.graphics_q_index, None);
    assert_eq!(q.transfer_q_index, None);
    let q = QueueFamilies::init(&Vec::new());
    assert_eq!(q, QueueFamilies { graphics_q_index: None, transfer_q_index: None });
}

#[test]
fn memory_type_is_first_allowed_with_all_flags() {
    let host = 0b0110;
    let types = vec![0b0001, 0b0110, 0b1110, 0b0110];
    assert_eq!(find_memorytype_index(0b1111, &types, host), Some(1));
    assert_eq!(find_memorytype_index(0b1100, &types, host), Some(2));
    assert_eq!(find_memorytype_index(0b0001, &types, host), None);
    assert_eq!(find_memorytype_index(0b1111, &types, 0b10000), None);
    assert_eq!(find_memorytype_index(0b1111, &types, 0), Some(0));
}

#[test]
fn memory_type_bit_thirty_one() {
    let mut types = vec![0u32; 32];
    types[31] = 7;
    assert_eq!(find_memorytype_index(1 << 31, &types, 7), Some(31));
}

#[test]
fn physical_device_is_last_discrete() {
    assert_eq!(choose_physical_device(&vec![false, true, false, true, false]), Some(3));
    assert_eq!(choose_physical_device(&vec![false, false]), None);
    assert_eq!(choose_physical_device(&vec![]), None);
}

#[test]
fn swapchain_image_count_is_clamped() {
    assert_eq!(swapchain_image_count(2, 8), 3);
    assert_eq!(swapchain_image_count(4, 8), 4);
    assert_eq!(swapchain_image_count(2, 2), 2);
    assert_eq!(swapchain_image_count(5, 4), 4);
}

#[test]
fn buffer_grows_only_when_payload_does_not_fit() {
    let mut slot: Option<Buffer> = None;
    assert_eq!(Buffer::update(&mut slot, 4096, BufferUsage::Vertex), UploadAction::Create);
    assert_eq!(slot.unwrap().size_in_bytes, 4096);
    assert_eq!(Buffer::update(&mut slot, 16384, BufferUsage::Vertex), UploadAction::Reallocate);
    assert_eq!(slot.unwrap().size_in_bytes, 16384);
    assert_eq!(Buffer::update(&mut slot, 8192, BufferUsage::Vertex), UploadAction::Write);
    assert_eq!(slot.unwrap().size_in_bytes, 16384);
    assert_eq!(slot.unwrap().usage, BufferUsage::Vertex);
}

#[test]
fn buffer_fill_keeps_usage() {
    let mut b = Buffer::init(128, BufferUsage::Uniform);
    assert_eq!(b.fill(128), UploadAction::Write);
    assert_eq!(b.size_in_bytes, 128);
    assert_eq!(b.fill(129), UploadAction::Reallocate);
    assert_eq!(b, Buffer { size_in_bytes: 129, usage: BufferUsage::Uniform });
    assert_eq!(b.fill(0), UploadAction::Write);
}

#[derive(Clone, Copy)]
struct Instance {
    model_matrix: [[f32; 4]; 4],
    inverse_model_matrix: [[f32; 4]; 4],
    colour: [f32; 3],
}

#[test]
fn one_instance_uploads_one_stride() {
    let mut m: Model<[f32; 6], Instance> = Model::with_mesh(vec![[0.0; 6]; 8], vec![0, 1, 2]);
    let identity = [[1.0, 0.0, 0.0, 0.0], [0.0, 1.0, 0.0, 0.0], [0.0, 0.0, 1.0, 0.0], [0.0, 0.0, 0.0, 1.0]];
    m.insert_visibly(Instance { model_matrix: identity, inverse_model_matrix: identity, colour: [0.0, 0.5, 0.0] });
    let bytes = std::mem::size_of_val(&m.instances[..m.first_invisible]);
    assert_eq!(bytes, 140);
    assert_eq!(bytes, INSTANCE_STRIDE as usize);
    let mut slot = None;
    assert_eq!(Buffer::update(&mut slot, bytes, BufferUsage::Vertex), UploadAction::Create);
    assert_eq!(slot.unwrap().size_in_bytes, 140);
}

#[test]
fn vertex_layout_matches_records() {
    let bindings = vertex_bindings();
    assert_eq!(bindings.len(), 2);
    assert_eq!((bindings[0].binding, bindings[0].stride, bindings[0].input_rate), (0, 24, InputRate::PerVertex));
    assert_eq!((bindings[1].binding, bindings[1].stride, bindings[1].input_rate), (1, 140, InputRate::PerInstance));
    assert_eq!(VERTEX_STRIDE as usize, std::mem::size_of::<[f32; 6]>());
    assert_eq!(INSTANCE_STRIDE as usize, std::mem::size_of::<Instance>());
    let attributes = vertex_attributes();
    let expected: Vec<(u32, u32, u32)> = vec![
        (0, 0, 0), (1, 0, 12),
        (2, 1, 0), (3, 1, 16), (4, 1, 32), (5, 1, 48),
        (6, 1, 64), (7, 1, 80), (8, 1, 96), (9, 1, 112),
        (10, 1, 128),
    ];
    let got: Vec<(u32, u32, u32)> = attributes.iter().map(|a| (a.location, a.binding, a.offset)).collect();
    assert_eq!(got, expected);
    assert_eq!(attributes[0].format, AttributeFormat::Float3);
    assert_eq!(attributes[5].format, AttributeFormat::Float4);
    assert_eq!(attributes[10].format, AttributeFormat::Float3);
}
