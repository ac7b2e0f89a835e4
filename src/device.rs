use vstd::prelude::*;

verus! {

/// What the logic needs to know of one queue family of a physical device.
#[derive(Debug, Clone, Copy, PartialEq, Eq, Structural)]
pub struct QueueFamilyInfo {
    pub queue_count: u32,
    pub graphics: bool,
    pub transfer: bool,
    /// Whether the family can present to the surface.
    pub present: bool,
}

/// The queue families chosen for graphics and for transfers.
#[derive(Debug, Clone, Copy, PartialEq, Eq, Structural)]
pub struct QueueFamilies {
    pub graphics_q_index: Option<u32>,
    pub transfer_q_index: Option<u32>,
}

/// A family that can draw to the surface.
pub open spec fn serves_graphics(f: QueueFamilyInfo) -> bool {
    f.queue_count > 0 && f.graphics && f.present
}

/// A family that can transfer.
pub open spec fn serves_transfer(f: QueueFamilyInfo) -> bool {
    f.queue_count > 0 && f.transfer
}

/// A family that can transfer and cannot draw.
pub open spec fn dedicated_transfer(f: QueueFamilyInfo) -> bool {
    serves_transfer(f) && !f.graphics
}

/// `r` is the last family of `fs` that serves graphics, or none is.
pub open spec fn is_graphics_choice(fs: Seq<QueueFamilyInfo>, r: Option<u32>) -> bool {
    match r {
        Some(i) => {
            &&& i < fs.len()
            &&& serves_graphics(fs[i as int])
            &&& forall|j: int| i < j < fs.len() ==> !serves_graphics(#[trigger] fs[j])
        },
        None => forall|j: int| 0 <= j < fs.len() ==> !serves_graphics(#[trigger] fs[j]),
    }
}

/// `r` is the last dedicated transfer family of `fs`; failing that, the
/// first family that can transfer; failing that, none.
pub open spec fn is_transfer_choice(fs: Seq<QueueFamilyInfo>, r: Option<u32>) -> bool {
    match r {
        Some(i) => {
            &&& i < fs.len()
            &&& serves_transfer(fs[i as int])
            &&& forall|j: int| i < j < fs.len() ==> !dedicated_transfer(#[trigger] fs[j])
            &&& !dedicated_transfer(fs[i as int]) ==> {
                &&& forall|j: int| 0 <= j < fs.len() ==> !dedicated_transfer(#[trigger] fs[j])
                &&& forall|j: int| 0 <= j < i ==> !serves_transfer(#[trigger] fs[j])
            }
        },
        None => forall|j: int| 0 <= j < fs.len() ==> !serves_transfer(#[trigger] fs[j]),
    }
}

impl QueueFamilies {
    /// Chooses the graphics family (the last that can draw to the surface)
    /// and the transfer family (the last dedicated one, else the first that
    /// can transfer).
    pub fn init(families: &Vec<QueueFamilyInfo>) -> (r: QueueFamilies)
        requires
            families@.len() <= u32::MAX,
        ensures
            is_graphics_choice(families@, r.graphics_q_index),
            is_transfer_choice(families@, r.transfer_q_index),
    {
        let mut found_graphics_q_index: Option<u32> = None;
        let mut found_transfer_q_index: Option<u32> = None;
        let mut index: usize = 0;
        while index < families.len()
            invariant
                families@.len() <= u32::MAX,
                0 <= index <= families@.len(),
                is_graphics_choice(families@.subrange(0, index as int), found_graphics_q_index),
                is_transfer_choice(families@.subrange(0, index as int), found_transfer_q_index),
            decreases families@.len() - index,
        {
            let qfam = families[index];
            let ghost prefix = families@.subrange(0, index as int);
            let ghost next = families@.subrange(0, index + 1);
            assert(forall|j: int| 0 <= j < index ==> #[trigger] next[j] == prefix[j]);
            assert(next[index as int] == qfam);
            if qfam.queue_count > 0 && qfam.graphics && qfam.present {
                found_graphics_q_index = Some(index as u32);
            }
            if qfam.queue_count > 0 && qfam.transfer {
                if found_transfer_q_index.is_none() || !qfam.graphics {
                    found_transfer_q_index = Some(index as u32);
                }
            }
            index = index + 1;
        }
        assert(families@.subrange(0, families@.len() as int) =~= families@);
        QueueFamilies {
            graphics_q_index: found_graphics_q_index,
            transfer_q_index: found_transfer_q_index,
        }
    }
}

/// Bit `i` of `bits` is set.
pub open spec fn bit_set(bits: u32, i: u32) -> bool {
    (1u32 << i) & bits != 0
}

/// Memory type `i` may back the resource and has every property of `flags`.
pub open spec fn memory_type_fits(
    memory_type_bits: u32,
    property_flags: Seq<u32>,
    flags: u32,
    i: int,
) -> bool {
    &&& bit_set(memory_type_bits, i as u32)
    &&& property_flags[i] & flags == flags
}

/// The first memory type that the resource allows (bit `i` of
/// `memory_type_bits`) and that has all of `flags`; `property_flags` holds
/// the property flags of each of the device's memory types.
pub fn find_memorytype_index(memory_type_bits: u32, property_flags: &Vec<u32>, flags: u32) -> (r:
    Option<u32>)
    requires
        property_flags@.len() <= 32,
    ensures
        match r {
            Some(i) => {
                &&& i < property_flags@.len()
                &&& memory_type_fits(memory_type_bits, property_flags@, flags, i as int)
                &&& forall|j: int|
                    0 <= j < i ==> !#[trigger] memory_type_fits(
                        memory_type_bits,
                        property_flags@,
                        flags,
                        j,
                    )
            },
            None => forall|j: int|
                0 <= j < property_flags@.len() ==> !#[trigger] memory_type_fits(
                    memory_type_bits,
                    property_flags@,
                    flags,
                    j,
                ),
        },
{
    let mut index: usize = 0;
    while index < property_flags.len()
        invariant
            property_flags@.len() <= 32,
            0 <= index <= property_flags@.len(),
            forall|j: int|
                0 <= j < index ==> !#[trigger] memory_type_fits(
                    memory_type_bits,
                    property_flags@,
                    flags,
                    j,
                ),
        decreases property_flags@.len() - index,
    {
        let i = index as u32;
        if (1u32 << i) & memory_type_bits != 0 && property_flags[index] & flags == flags {
            return Some(i);
        }
        index = index + 1;
    }
    None
}

/// The last device that is a discrete GPU, if any.
pub fn choose_physical_device(is_discrete: &Vec<bool>) -> (r: Option<usize>)
    ensures
        match r {
            Some(i) => {
                &&& i < is_discrete@.len()
                &&& is_discrete@[i as int]
                &&& forall|j: int| i < j < is_discrete@.len() ==> !#[trigger] is_discrete@[j]
            },
            None => forall|j: int| 0 <= j < is_discrete@.len() ==> !#[trigger] is_discrete@[j],
        },
{
    let mut chosen: Option<usize> = None;
    let mut index: usize = 0;
    while index < is_discrete.len()
        invariant
            0 <= index <= is_discrete@.len(),
            match chosen {
                Some(i) => {
                    &&& i < index
                    &&& is_discrete@[i as int]
                    &&& forall|j: int| i < j < index ==> !#[trigger] is_discrete@[j]
                },
                None => forall|j: int| 0 <= j < index ==> !#[trigger] is_discrete@[j],
            },
        decreases is_discrete@.len() - index,
    {
        if is_discrete[index] {
            chosen = Some(index);
        }
        index = index + 1;
    }
    chosen
}

/// The number of swapchain images to ask for: three, raised to the
/// surface's minimum and then capped at its maximum.
pub fn swapchain_image_count(min_image_count: u32, max_image_count: u32) -> (r: u32)
    ensures
        r == if (if min_image_count > 3 { min_image_count } else { 3 }) > max_image_count {
            max_image_count
        } else if min_image_count > 3 {
            min_image_count
        } else {
            3
        },
{
    let wanted: u32 = if min_image_count > 3 { min_image_count } else { 3 };
    if wanted > max_image_count {
        max_image_count
    } else {
        wanted
    }
}

} // verus!
