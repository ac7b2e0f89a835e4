use std::collections::HashMap;
use vstd::prelude::*;

verus! {

broadcast use vstd::std_specs::hash::group_hash_axioms;

/// Error returned when a handle does not name a registered instance.
#[derive(Debug, Clone, Copy, PartialEq, Eq, Structural)]
pub struct InvalidHandle;

impl InvalidHandle {
    /// Human-readable description of the error.
    pub fn message(&self) -> (r: &'static str)
        ensures
            r@ == "invalid handle"@,
    {
        "invalid handle"
    }
}

/// A mesh together with a registry of its instances.
///
/// Instances are addressed by handles that are never reused. The instances at
/// positions `[0, first_invisible)` are the visible ones, those after it are
/// hidden, so the visible instances always form one contiguous prefix that can
/// be drawn with a single instanced call.
pub struct Model<V, I> where V: Copy, I: Copy {
    pub vertex_data: Vec<V>,
    pub index_data: Vec<u32>,
    pub handle_to_index: HashMap<usize, usize>,
    pub handles: Vec<usize>,
    pub instances: Vec<I>,
    pub first_invisible: usize,
    pub next_handle: usize,
}

/// The one indexed, instanced draw that a model records.
#[derive(Debug, Clone, Copy, PartialEq, Eq, Structural)]
pub struct DrawCall {
    pub index_count: usize,
    pub instance_count: usize,
}

impl<V: Copy, I: Copy> Model<V, I> {
    /// The registry's invariant: handles and instances are parallel, the map
    /// and the handle list are inverse to each other, the partition point lies
    /// inside the list, and every registered handle was issued before.
    pub open spec fn wf(&self) -> bool {
        &&& self.instances@.len() == self.handles@.len()
        &&& self.first_invisible <= self.instances@.len()
        &&& forall|h: usize| #[trigger]
            self.handle_to_index@.contains_key(h) ==> {
                &&& self.handle_to_index@[h] < self.handles@.len()
                &&& self.handles@[self.handle_to_index@[h] as int] == h
            }
        &&& forall|i: int|
            0 <= i < self.handles@.len() ==> {
                &&& self.handle_to_index@.contains_key(#[trigger] self.handles@[i])
                &&& self.handle_to_index@[self.handles@[i]] == i
                &&& self.handles@[i] < self.next_handle
            }
    }

    /// Number of registered instances.
    pub open spec fn len(&self) -> nat {
        self.instances@.len()
    }

    /// Whether `h` names a registered instance.
    pub open spec fn has(&self, h: usize) -> bool {
        self.contents().contains_key(h)
    }

    /// Whether the registered instance `h` lies in the visible prefix.
    pub open spec fn shown(&self, h: usize) -> bool {
        self.handle_to_index@[h] < self.first_invisible
    }

    /// The registered instances, by handle.
    pub open spec fn contents(&self) -> Map<usize, I> {
        Map::new(
            |h: usize| self.handle_to_index@.contains_key(h),
            |h: usize| self.instances@[self.handle_to_index@[h] as int],
        )
    }

    /// The handles of the visible instances.
    pub open spec fn visible(&self) -> Set<usize> {
        Set::new(|h: usize| self.has(h) && self.shown(h))
    }

    /// Vertex and index lists are the same in both models.
    pub open spec fn same_mesh(&self, other: &Self) -> bool {
        &&& self.vertex_data@ == other.vertex_data@
        &&& self.index_data@ == other.index_data@
    }

    /// Both models hold the same state, field by field.
    pub open spec fn same_state(&self, other: &Self) -> bool {
        &&& self.same_mesh(other)
        &&& self.handle_to_index@ == other.handle_to_index@
        &&& self.handles@ == other.handles@
        &&& self.instances@ == other.instances@
        &&& self.first_invisible == other.first_invisible
        &&& self.next_handle == other.next_handle
    }

    /// What `make_visible(h)` does to a model: an unknown handle or one that
    /// is already visible changes nothing; otherwise `h` joins the visible
    /// instances, which grow by one, and nothing else changes.
    pub open spec fn shows(before: Self, after: Self, h: usize) -> bool {
        &&& after.wf()
        &&& !before.has(h) ==> after.same_state(&before)
        &&& before.has(h) && before.shown(h) ==> after.same_state(&before)
        &&& before.has(h) ==> {
            &&& after.contents() == before.contents()
            &&& after.visible() == before.visible().insert(h)
            &&& after.first_invisible == if before.shown(h) {
                before.first_invisible as int
            } else {
                before.first_invisible + 1
            }
            &&& after.len() == before.len()
            &&& after.next_handle == before.next_handle
            &&& after.same_mesh(&before)
        }
    }

    /// What `make_invisible(h)` does to a model: an unknown handle or one
    /// that is already hidden changes nothing; otherwise `h` leaves the
    /// visible instances, which shrink by one, and nothing else changes.
    pub open spec fn hides(before: Self, after: Self, h: usize) -> bool {
        &&& after.wf()
        &&& !before.has(h) ==> after.same_state(&before)
        &&& before.has(h) && !before.shown(h) ==> after.same_state(&before)
        &&& before.has(h) ==> {
            &&& after.contents() == before.contents()
            &&& after.visible() == before.visible().remove(h)
            &&& after.first_invisible == if before.shown(h) {
                before.first_invisible - 1
            } else {
                before.first_invisible as int
            }
            &&& after.len() == before.len()
            &&& after.next_handle == before.next_handle
            &&& after.same_mesh(&before)
        }
    }

    /// Showing an instance twice has the effect of showing it once: the
    /// second `make_visible` changes nothing.
    pub proof fn lemma_show_idempotent(m0: Self, m1: Self, m2: Self, h: usize)
        requires
            m0.wf(),
            Self::shows(m0, m1, h),
            Self::shows(m1, m2, h),
        ensures
            m2.same_state(&m1),
            m2.visible() == m0.visible().insert(h) || !m0.has(h),
    {
        if m0.has(h) {
            assert(m1.visible().contains(h));
        }
    }

    /// Hiding an instance twice has the effect of hiding it once: the second
    /// `make_invisible` changes nothing.
    pub proof fn lemma_hide_idempotent(m0: Self, m1: Self, m2: Self, h: usize)
        requires
            m0.wf(),
            Self::hides(m0, m1, h),
            Self::hides(m1, m2, h),
        ensures
            m2.same_state(&m1),
            m2.visible() == m0.visible().remove(h) || !m0.has(h),
    {
        if m0.has(h) {
            assert(!m1.visible().contains(h));
        }
    }

    /// Every registered handle lies below `next_handle`, which only grows:
    /// the handle that `insert` hands out (`next_handle`) was never handed
    /// out before and is registered to nothing.
    pub proof fn lemma_handles_below_next(m: Self, h: usize)
        requires
            m.wf(),
            m.has(h),
        ensures
            h < m.next_handle,
    {
        assert(m.handles@[m.handle_to_index@[h] as int] == h);
    }

    /// The visible instances are exactly those in the first
    /// `first_invisible` positions, so there are `first_invisible` of them,
    /// and a registered handle is visible exactly when its position lies
    /// below `first_invisible`.
    pub proof fn lemma_visible_prefix(m: Self)
        requires
            m.wf(),
        ensures
            m.visible() == m.handles@.subrange(0, m.first_invisible as int).to_set(),
            m.visible().len() == m.first_invisible,
            forall|h: usize| #[trigger]
                m.has(h) ==> (m.visible().contains(h) == (m.handle_to_index@[h] < m.first_invisible)),
    {
        let prefix = m.handles@.subrange(0, m.first_invisible as int);
        assert forall|h: usize| #[trigger] m.visible().contains(h) == prefix.to_set().contains(h) by {
            if m.visible().contains(h) {
                let i = m.handle_to_index@[h] as int;
                assert(m.handles@[i] == h);
                assert(prefix[i] == h);
            }
            if prefix.to_set().contains(h) {
                let i = choose|i: int| 0 <= i < prefix.len() && prefix[i] == h;
                assert(m.handles@[i] == h);
                assert(m.handle_to_index@[m.handles@[i]] == i);
            }
        }
        assert(m.visible() =~= prefix.to_set());
        assert forall|i: int, j: int|
            0 <= i < prefix.len() && 0 <= j < prefix.len() && i != j implies #[trigger] prefix[i]
            != #[trigger] prefix[j] by {
            assert(m.handle_to_index@[m.handles@[i]] == i);
            assert(m.handle_to_index@[m.handles@[j]] == j);
        }
        prefix.unique_seq_to_set();
    }

    /// A model with the given mesh and no instances.
    pub fn with_mesh(vertex_data: Vec<V>, index_data: Vec<u32>) -> (m: Self)
        ensures
            m.wf(),
            m.vertex_data@ == vertex_data@,
            m.index_data@ == index_data@,
            m.len() == 0,
            m.contents() == Map::<usize, I>::empty(),
            m.visible() == Set::<usize>::empty(),
            m.first_invisible == 0,
            m.next_handle == 0,
    {
        let m = Model {
            vertex_data,
            index_data,
            handle_to_index: HashMap::new(),
            handles: Vec::new(),
            instances: Vec::new(),
            first_invisible: 0,
            next_handle: 0,
        };
        assert(m.contents() =~= Map::<usize, I>::empty());
        assert(m.visible() =~= Set::<usize>::empty());
        m
    }

    /// Exchanges the instances at positions `index1` and `index2`, keeping
    /// each handle attached to its instance.
    pub fn swap_by_index(&mut self, index1: usize, index2: usize)
        requires
            old(self).wf(),
            index1 < old(self).len(),
            index2 < old(self).len(),
        ensures
            final(self).wf(),
            final(self).instances@ == old(self).instances@.update(
                index1 as int,
                old(self).instances@[index2 as int],
            ).update(index2 as int, old(self).instances@[index1 as int]),
            final(self).handles@ == old(self).handles@.update(
                index1 as int,
                old(self).handles@[index2 as int],
            ).update(index2 as int, old(self).handles@[index1 as int]),
            final(self).handle_to_index@ == old(self).handle_to_index@.insert(
                old(self).handles@[index1 as int],
                index2,
            ).insert(old(self).handles@[index2 as int], index1),
            final(self).contents() == old(self).contents(),
            final(self).first_invisible == old(self).first_invisible,
            final(self).next_handle == old(self).next_handle,
            final(self).same_mesh(old(self)),
    {
        if index1 == index2 {
            proof {
                let m = old(self).handle_to_index@;
                let h = old(self).handles@[index1 as int];
                assert(m.insert(h, index2).insert(h, index1) =~= m);
                assert(old(self).instances@.update(index1 as int, old(self).instances@[index2 as int])
                    =~= old(self).instances@);
                assert(old(self).handles@.update(index1 as int, old(self).handles@[index2 as int])
                    =~= old(self).handles@);
            }
            return ;
        }
        let handle1 = self.handles[index1];
        let handle2 = self.handles[index2];
        let instance1 = self.instances[index1];
        let instance2 = self.instances[index2];

        self.handles.set(index1, handle2);
        self.handles.set(index2, handle1);
        self.instances.set(index1, instance2);
        self.instances.set(index2, instance1);

        self.handle_to_index.insert(handle1, index2);
        self.handle_to_index.insert(handle2, index1);

        proof {
            assert(self.handles@[index1 as int] == handle2);
            assert(self.handles@[index2 as int] == handle1);
            assert forall|h: usize| #[trigger] self.handle_to_index@.contains_key(h) implies {
                &&& self.handle_to_index@[h] < self.handles@.len()
                &&& self.handles@[self.handle_to_index@[h] as int] == h
            } by {
                if h != handle1 && h != handle2 {
                    let i = old(self).handle_to_index@[h] as int;
                    assert(old(self).handles@[i] == h);
                }
            }
            assert forall|i: int| 0 <= i < self.handles@.len() implies {
                &&& self.handle_to_index@.contains_key(#[trigger] self.handles@[i])
                &&& self.handle_to_index@[self.handles@[i]] == i
                &&& self.handles@[i] < self.next_handle
            } by {
                if i != index1 && i != index2 {
                    assert(old(self).handles@[i] == self.handles@[i]);
                    assert(old(self).handle_to_index@[old(self).handles@[i]] == i);
                }
            }
            assert(self.contents() =~= old(self).contents());
        }
    }

    /// Exchanges the positions of the instances `handle1` and `handle2`.
    /// Fails, changing nothing, unless both handles are registered.
    pub fn swap_by_handle(&mut self, handle1: usize, handle2: usize) -> (r: Result<(), InvalidHandle>)
        requires
            old(self).wf(),
        ensures
            final(self).wf(),
            r.is_ok() == (old(self).has(handle1) && old(self).has(handle2)),
            r.is_ok() ==> {
                &&& final(self).handle_to_index@ == old(self).handle_to_index@.insert(
                    handle1,
                    old(self).handle_to_index@[handle2],
                ).insert(handle2, old(self).handle_to_index@[handle1])
                &&& final(self).contents() == old(self).contents()
                &&& final(self).first_invisible == old(self).first_invisible
                &&& final(self).len() == old(self).len()
                &&& final(self).next_handle == old(self).next_handle
                &&& final(self).same_mesh(old(self))
            },
            r.is_err() ==> final(self).same_state(old(self)),
    {
        let index1 = match self.handle_to_index.get(&handle1) {
            Some(i) => *i,
            None => return Err(InvalidHandle),
        };
        let index2 = match self.handle_to_index.get(&handle2) {
            Some(i) => *i,
            None => return Err(InvalidHandle),
        };
        self.swap_by_index(index1, index2);
        proof {
            if handle1 == handle2 {
                assert(self.handle_to_index@ =~= old(self).handle_to_index@.insert(
                    handle1,
                    old(self).handle_to_index@[handle2],
                ).insert(handle2, old(self).handle_to_index@[handle1]));
            }
        }
        Ok(())
    }

    /// Whether the instance `handle` is visible; fails unless it is registered.
    pub fn in_visible(&self, handle: usize) -> (r: Result<bool, InvalidHandle>)
        requires
            self.wf(),
        ensures
            r.is_ok() == self.has(handle),
            r matches Ok(b) ==> b == self.visible().contains(handle),
    {
        match self.handle_to_index.get(&handle) {
            Some(index) => Ok(*index < self.first_invisible),
            None => Err(InvalidHandle),
        }
    }

    /// Moves the instance `handle` into the visible prefix; an instance that
    /// is already visible stays where it is. Fails, changing nothing, unless
    /// `handle` is registered.
    pub fn make_visible(&mut self, handle: usize) -> (r: Result<(), InvalidHandle>)
        requires
            old(self).wf(),
        ensures
            r.is_ok() == old(self).has(handle),
            Self::shows(*old(self), *final(self), handle),
    {
        let index = match self.handle_to_index.get(&handle) {
            Some(i) => *i,
            None => return Err(InvalidHandle),
        };
        if index < self.first_invisible {
            proof {
                assert(self.visible() =~= old(self).visible().insert(handle));
            }
            return Ok(());
        }
        let first = self.first_invisible;
        let len = self.instances.len();
        assert(self.has(handle) && first <= index < len);
        self.swap_by_index(index, first);
        self.first_invisible = first + 1;
        proof {
            let other = old(self).handles@[first as int];
            assert forall|h: usize| #[trigger] self.visible().contains(h) == old(self).visible().insert(
                handle,
            ).contains(h) by {
                if h != handle && h != other && old(self).has(h) {
                    assert(old(self).handles@[old(self).handle_to_index@[h] as int] == h);
                }
            }
            assert(self.visible() =~= old(self).visible().insert(handle));
        }
        Ok(())
    }

    /// Moves the instance `handle` out of the visible prefix; an instance
    /// that is already hidden stays where it is. Fails, changing nothing,
    /// unless `handle` is registered.
    pub fn make_invisible(&mut self, handle: usize) -> (r: Result<(), InvalidHandle>)
        requires
            old(self).wf(),
        ensures
            r.is_ok() == old(self).has(handle),
            Self::hides(*old(self), *final(self), handle),
    {
        let index = match self.handle_to_index.get(&handle) {
            Some(i) => *i,
            None => return Err(InvalidHandle),
        };
        if index >= self.first_invisible {
            proof {
                assert(self.visible() =~= old(self).visible().remove(handle));
            }
            return Ok(());
        }
        let last = self.first_invisible - 1;
        self.swap_by_index(index, last);
        self.first_invisible = last;
        proof {
            let other = old(self).handles@[last as int];
            assert forall|h: usize| #[trigger] self.visible().contains(h) == old(self).visible().remove(
                handle,
            ).contains(h) by {
                if h != handle && h != other && old(self).has(h) {
                    assert(old(self).handles@[old(self).handle_to_index@[h] as int] == h);
                }
            }
            assert(self.visible() =~= old(self).visible().remove(handle));
        }
        Ok(())
    }

    /// Registers `element` under a fresh handle and returns that handle.
    /// The new instance starts out hidden.
    pub fn insert(&mut self, element: I) -> (handle: usize)
        requires
            old(self).wf(),
            old(self).next_handle < usize::MAX,
        ensures
            final(self).wf(),
            handle == old(self).next_handle,
            !old(self).has(handle),
            final(self).next_handle == old(self).next_handle + 1,
            final(self).len() == old(self).len() + 1,
            final(self).contents() == old(self).contents().insert(handle, element),
            final(self).visible() == old(self).visible(),
            final(self).first_invisible == old(self).first_invisible,
            final(self).same_mesh(old(self)),
    {
        let handle = self.next_handle;
        self.next_handle = handle + 1;

        let index = self.instances.len();
        self.instances.push(element);
        self.handles.push(handle);
        self.handle_to_index.insert(handle, index);

        proof {
            if old(self).has(handle) {
                let i = old(self).handle_to_index@[handle] as int;
                assert(old(self).handles@[i] == handle);
            }
            assert forall|h: usize| #[trigger] self.handle_to_index@.contains_key(h) implies {
                &&& self.handle_to_index@[h] < self.handles@.len()
                &&& self.handles@[self.handle_to_index@[h] as int] == h
            } by {
                if h != handle {
                    let i = old(self).handle_to_index@[h] as int;
                    assert(old(self).handles@[i] == h);
                }
            }
            assert forall|i: int| 0 <= i < self.handles@.len() implies {
                &&& self.handle_to_index@.contains_key(#[trigger] self.handles@[i])
                &&& self.handle_to_index@[self.handles@[i]] == i
                &&& self.handles@[i] < self.next_handle
            } by {
                if i < index {
                    assert(old(self).handles@[i] == self.handles@[i]);
                }
            }
            assert(self.contents() =~= old(self).contents().insert(handle, element));
            assert(self.visible() =~= old(self).visible());
        }
        handle
    }

    /// Registers `element` under a fresh handle, makes it visible, and
    /// returns the handle.
    pub fn insert_visibly(&mut self, element: I) -> (handle: usize)
        requires
            old(self).wf(),
            old(self).next_handle < usize::MAX,
        ensures
            final(self).wf(),
            handle == old(self).next_handle,
            !old(self).has(handle),
            final(self).next_handle == old(self).next_handle + 1,
            final(self).len() == old(self).len() + 1,
            final(self).contents() == old(self).contents().insert(handle, element),
            final(self).visible() == old(self).visible().insert(handle),
            final(self).first_invisible == old(self).first_invisible + 1,
            final(self).same_mesh(old(self)),
    {
        let handle = self.insert(element);
        proof {
            assert(self.contents().contains_key(handle));
            assert(!self.visible().contains(handle));
        }
        let ghost inserted = *self;
        let _ = self.make_visible(handle);
        proof {
            assert(!inserted.shown(handle));
        }
        handle
    }

    /// Unregisters the instance `handle` and returns it. Fails, changing
    /// nothing, unless `handle` is registered.
    pub fn remove(&mut self, handle: usize) -> (r: Result<I, InvalidHandle>)
        requires
            old(self).wf(),
        ensures
            final(self).wf(),
            r.is_ok() == old(self).has(handle),
            match r {
                Ok(element) => {
                    &&& element == old(self).contents()[handle]
                    &&& final(self).contents() == old(self).contents().remove(handle)
                    &&& final(self).visible() == old(self).visible().remove(handle)
                    &&& final(self).len() == old(self).len() - 1
                    &&& final(self).first_invisible == if old(self).shown(handle) {
                        old(self).first_invisible - 1
                    } else {
                        old(self).first_invisible as int
                    }
                    &&& final(self).next_handle == old(self).next_handle
                    &&& final(self).same_mesh(old(self))
                },
                Err(_) => final(self).same_state(old(self)),
            },
    {
        let index = match self.handle_to_index.get(&handle) {
            Some(i) => *i,
            None => return Err(InvalidHandle),
        };
        let ghost element = old(self).contents()[handle];
        let ghost was_shown = old(self).shown(handle);
        let len = self.instances.len();
        assert(index < len);
        let mut position = index;
        if index < self.first_invisible {
            let last = self.first_invisible - 1;
            self.swap_by_index(index, last);
            self.first_invisible = last;
            position = last;
            proof {
                let other = old(self).handles@[last as int];
                assert forall|h: usize| #[trigger] self.visible().contains(h) == old(self).visible().remove(
                    handle,
                ).contains(h) by {
                    if h != handle && h != other && old(self).has(h) {
                        assert(old(self).handles@[old(self).handle_to_index@[h] as int] == h);
                    }
                }
                assert(self.visible() =~= old(self).visible().remove(handle));
            }
        } else {
            proof {
                assert(self.visible() =~= old(self).visible().remove(handle));
            }
        }
        let ghost mid = *self;
        assert(mid.handle_to_index@[handle] == position);
        assert(position >= mid.first_invisible);

        self.swap_by_index(position, len - 1);
        let ghost swapped = *self;
        self.handles.pop();
        self.handle_to_index.remove(&handle);
        let popped = self.instances.pop();
        proof {
            assert(swapped.handles@[len - 1] == handle);
            assert(self.handles@ =~= swapped.handles@.drop_last());
            assert(self.instances@ =~= swapped.instances@.drop_last());
            assert forall|h: usize| #[trigger] self.handle_to_index@.contains_key(h) implies {
                &&& self.handle_to_index@[h] < self.handles@.len()
                &&& self.handles@[self.handle_to_index@[h] as int] == h
            } by {
                let i = swapped.handle_to_index@[h] as int;
                assert(swapped.handles@[i] == h);
            }
            assert forall|i: int| 0 <= i < self.handles@.len() implies {
                &&& self.handle_to_index@.contains_key(#[trigger] self.handles@[i])
                &&& self.handle_to_index@[self.handles@[i]] == i
                &&& self.handles@[i] < self.next_handle
            } by {
                assert(swapped.handles@[i] == self.handles@[i]);
                assert(swapped.handle_to_index@[swapped.handles@[i]] == i);
            }
            assert(self.contents() =~= old(self).contents().remove(handle)) by {
                assert forall|h: usize| #[trigger] self.contents().contains_key(h) implies
                    self.contents()[h] == swapped.contents()[h] by {
                    let i = swapped.handle_to_index@[h] as int;
                    assert(swapped.handles@[i] == h);
                }
            }
            assert forall|h: usize| #[trigger] self.visible().contains(h) == mid.visible().contains(h)
                by {
                if h != handle && swapped.has(h) {
                    let i = swapped.handle_to_index@[h] as int;
                    assert(swapped.handles@[i] == h);
                }
                if h != handle && mid.has(h) {
                    let i = mid.handle_to_index@[h] as int;
                    assert(mid.handles@[i] == h);
                }
            }
            assert(self.visible() =~= mid.visible());
        }
        match popped {
            Some(e) => Ok(e),
            None => Err(InvalidHandle),
        }
    }

    /// The draw to record, given which of the model's buffers exist: none
    /// when the vertex or the instance buffer is missing or nothing is
    /// visible, else all indices over the visible instances.
    pub fn draw_call(&self, has_vertex_buffer: bool, has_instance_buffer: bool) -> (r: Option<
        DrawCall,
    >)
        ensures
            r == if has_vertex_buffer && has_instance_buffer && self.first_invisible > 0 {
                Some(
                    (DrawCall {
                        index_count: self.index_data@.len() as usize,
                        instance_count: self.first_invisible,
                    }),
                )
            } else {
                None
            },
    {
        if has_vertex_buffer && has_instance_buffer && self.first_invisible > 0 {
            Some(DrawCall { index_count: self.index_data.len(), instance_count: self.first_invisible })
        } else {
            None
        }
    }

    /// The instance registered under `handle`, if any.
    pub fn get(&self, handle: usize) -> (r: Option<&I>)
        requires
            self.wf(),
        ensures
            r.is_some() == self.has(handle),
            r matches Some(e) ==> *e == self.contents()[handle],
    {
        match self.handle_to_index.get(&handle) {
            Some(index) => Some(&self.instances[*index]),
            None => None,
        }
    }

    /// Mutable access to the instance registered under `handle`, if any.
    /// Whatever is written through the reference replaces that instance;
    /// nothing else changes.
    pub fn get_mut(&mut self, handle: usize) -> (r: Option<&mut I>)
        requires
            old(self).wf(),
        ensures
            r.is_some() == old(self).has(handle),
            match r {
                Some(e) => {
                    &&& *e == old(self).contents()[handle]
                    &&& final(self).instances@ == old(self).instances@.update(
                        old(self).handle_to_index@[handle] as int,
                        *final(e),
                    )
                    &&& final(self).handle_to_index@ == old(self).handle_to_index@
                    &&& final(self).handles@ == old(self).handles@
                    &&& final(self).first_invisible == old(self).first_invisible
                    &&& final(self).next_handle == old(self).next_handle
                    &&& final(self).same_mesh(old(self))
                },
                None => final(self).same_state(old(self)),
            },
    {
        match self.handle_to_index.get(&handle) {
            Some(index) => {
                let index = *index;
                Some(&mut self.instances[index])
            },
            None => None,
        }
    }
}

} // verus!
