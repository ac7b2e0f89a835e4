use vstd::prelude::*;

verus! {

/// How often a vertex binding advances.
#[derive(Debug, Clone, Copy, PartialEq, Eq, Structural)]
pub enum InputRate {
    PerVertex,
    PerInstance,
}

/// The format of one vertex attribute.
#[derive(Debug, Clone, Copy, PartialEq, Eq, Structural)]
pub enum AttributeFormat {
    /// Three 32-bit floats.
    Float3,
    /// Four 32-bit floats.
    Float4,
}

/// One vertex input binding: a buffer slot and the size of each record.
#[derive(Debug, Clone, Copy, PartialEq, Eq, Structural)]
pub struct BindingDescription {
    pub binding: u32,
    pub stride: u32,
    pub input_rate: InputRate,
}

/// One shader input read from a binding at a byte offset.
#[derive(Debug, Clone, Copy, PartialEq, Eq, Structural)]
pub struct AttributeDescription {
    pub location: u32,
    pub binding: u32,
    pub format: AttributeFormat,
    pub offset: u32,
}

/// Byte size of an attribute of format `f`.
pub open spec fn format_size(f: AttributeFormat) -> nat {
    match f {
        AttributeFormat::Float3 => 12,
        AttributeFormat::Float4 => 16,
    }
}

/// Byte size of a vertex: position and normal.
pub const VERTEX_STRIDE: u32 = 24;

/// Byte size of an instance: model matrix, its inverse, and a colour.
pub const INSTANCE_STRIDE: u32 = 140;

/// The bindings: per-vertex records at slot 0, per-instance records at slot 1.
pub open spec fn binding_layout() -> Seq<BindingDescription> {
    seq![
        BindingDescription { binding: 0, stride: 24, input_rate: InputRate::PerVertex },
        BindingDescription { binding: 1, stride: 140, input_rate: InputRate::PerInstance },
    ]
}

/// The attribute at `location` that reads `format` from `binding` at `offset`.
pub open spec fn attribute(
    location: u32,
    binding: u32,
    format: AttributeFormat,
    offset: u32,
) -> AttributeDescription {
    AttributeDescription { location, binding, format, offset }
}

/// The attributes: position and normal of a vertex; the four rows of the
/// model matrix, the four rows of its inverse, and the colour of an instance.
pub open spec fn attribute_layout() -> Seq<AttributeDescription> {
    seq![
        attribute(0, 0, AttributeFormat::Float3, 0),
        attribute(1, 0, AttributeFormat::Float3, 12),
        attribute(2, 1, AttributeFormat::Float4, 0),
        attribute(3, 1, AttributeFormat::Float4, 16),
        attribute(4, 1, AttributeFormat::Float4, 32),
        attribute(5, 1, AttributeFormat::Float4, 48),
        attribute(6, 1, AttributeFormat::Float4, 64),
        attribute(7, 1, AttributeFormat::Float4, 80),
        attribute(8, 1, AttributeFormat::Float4, 96),
        attribute(9, 1, AttributeFormat::Float4, 112),
        attribute(10, 1, AttributeFormat::Float3, 128),
    ]
}

/// The vertex input bindings that a pipeline drawing a model declares.
pub fn vertex_bindings() -> (r: Vec<BindingDescription>)
    ensures
        r@ == binding_layout(),
{
    let r = vec![
        BindingDescription { binding: 0, stride: VERTEX_STRIDE, input_rate: InputRate::PerVertex },
        BindingDescription {
            binding: 1,
            stride: INSTANCE_STRIDE,
            input_rate: InputRate::PerInstance,
        },
    ];
    assert(r@ =~= binding_layout());
    r
}

fn float3(location: u32, binding: u32, offset: u32) -> (r: AttributeDescription)
    ensures
        r == attribute(location, binding, AttributeFormat::Float3, offset),
{
    AttributeDescription { location, binding, format: AttributeFormat::Float3, offset }
}

fn float4(location: u32, binding: u32, offset: u32) -> (r: AttributeDescription)
    ensures
        r == attribute(location, binding, AttributeFormat::Float4, offset),
{
    AttributeDescription { location, binding, format: AttributeFormat::Float4, offset }
}

/// The vertex input attributes that a pipeline drawing a model declares.
pub fn vertex_attributes() -> (r: Vec<AttributeDescription>)
    ensures
        r@ == attribute_layout(),
{
    let r = vec![
        float3(0, 0, 0),
        float3(1, 0, 12),
        float4(2, 1, 0),
        float4(3, 1, 16),
        float4(4, 1, 32),
        float4(5, 1, 48),
        float4(6, 1, 64),
        float4(7, 1, 80),
        float4(8, 1, 96),
        float4(9, 1, 112),
        float3(10, 1, 128),
    ];
    assert(r@ =~= attribute_layout());
    r
}

/// Every attribute reads inside one record of its binding, no two
/// attributes of a binding overlap, and each location is used once.
pub proof fn lemma_layout_consistent()
    ensures
        forall|i: int|
            0 <= i < attribute_layout().len() ==> {
                let a = #[trigger] attribute_layout()[i];
                &&& a.binding < binding_layout().len()
                &&& binding_layout()[a.binding as int].binding == a.binding
                &&& a.offset + format_size(a.format) <= binding_layout()[a.binding as int].stride
            },
        forall|i: int, j: int|
            0 <= i < j < attribute_layout().len() ==> {
                let a = #[trigger] attribute_layout()[i];
                let b = #[trigger] attribute_layout()[j];
                &&& a.location != b.location
                &&& a.binding == b.binding ==> a.offset + format_size(a.format) <= b.offset
            },
{
    assert(attribute_layout().len() == 11);
    assert(forall|i: int| 0 <= i < 11 ==> #[trigger] attribute_layout()[i].location == i);
    assert(forall|i: int| 0 <= i < 10 ==> attribute_layout()[i].binding == attribute_layout()[i + 1].binding
        ==> attribute_layout()[i].offset + format_size(attribute_layout()[i].format) <= attribute_layout()[i + 1].offset);
}

} // verus!
