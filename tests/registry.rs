use krakatoa::{DrawCall, InvalidHandle, Model};

fn empty() -> Model<u8, char> {
    Model::with_mesh(vec![0u8, 1, 2], vec![0, 1, 2])
}

fn check_consistent(m: &Model<u8, char>) {
    assert_eq!(m.instances.len(), m.handles.len());
    assert!(m.first_invisible <= m.instances.len());
    assert_eq!(m.handle_to_index.len(), m.handles.len());
    for (h, &i) in m.handle_to_index.iter() {
        assert_eq!(m.handles[i], *h);
        assert_eq!(m.in_visible(*h).unwrap(), i < m.first_invisible);
    }
}

#[test]
fn insert_visibly_three() {
    let mut m = empty();
    let a = m.insert_visibly('a');
    let b = m.insert_visibly('b');
    let c = m.insert_visibly('c');
    assert_eq!((a, b, c), (0, 1, 2));
    assert_eq!(m.first_invisible, 3);
    for h in [a, b, c] {
        assert_eq!(m.in_visible(h), Ok(true));
    }
    check_consistent(&m);
}

#[test]
fn make_invisible_moves_to_hidden_suffix() {
    let mut m = empty();
    m.insert_visibly('a');
    m.insert_visibly('b');
    m.insert_visibly('c');
    assert_eq!(m.make_invisible(1), Ok(()));
    assert_eq!(m.first_invisible, 2);
    assert_eq!(m.handle_to_index[&1], 2);
    assert_eq!(m.instances[2], 'b');
    assert_eq!(m.in_visible(1), Ok(false));
    check_consistent(&m);
}

#[test]
fn remove_visible_keeps_partition() {
    let mut m = empty();
    m.insert_visibly('a');
    m.insert_visibly('b');
    m.insert_visibly('c');
    m.make_invisible(1).unwrap();
    assert_eq!(m.remove(0), Ok('a'));
    assert_eq!(m.instances.len(), 2);
    assert_eq!(m.first_invisible, 1);
    assert_eq!(m.instances[0], 'c');
    assert_eq!(m.instances[1], 'b');
    assert_eq!(m.get(0), None);
    check_consistent(&m);
}

#[test]
fn remove_hidden_returns_its_own_value() {
    let mut m = empty();
    let a = m.insert_visibly('a');
    let b = m.insert('b');
    let c = m.insert('c');
    let d = m.insert('d');
    assert_eq!(m.remove(c), Ok('c'));
    assert_eq!(m.instances.len(), 3);
    assert_eq!(m.first_invisible, 1);
    assert_eq!(m.get(a), Some(&'a'));
    assert_eq!(m.get(b), Some(&'b'));
    assert_eq!(m.get(d), Some(&'d'));
    assert_eq!(m.in_visible(b), Ok(false));
    assert_eq!(m.in_visible(d), Ok(false));
    check_consistent(&m);
}

#[test]
fn insert_starts_hidden() {
    let mut m = empty();
    let h = m.insert('x');
    assert_eq!(h, 0);
    assert_eq!(m.first_invisible, 0);
    assert_eq!(m.in_visible(h), Ok(false));
    assert_eq!(m.get(h), Some(&'x'));
    assert_eq!(m.next_handle, 1);
}

#[test]
fn unknown_handles_fail() {
    let mut m = empty();
    let h = m.insert_visibly('a');
    assert_eq!(m.get(7), None);
    assert!(m.get_mut(7).is_none());
    assert_eq!(m.in_visible(7), Err(InvalidHandle));
    assert_eq!(m.make_visible(7), Err(InvalidHandle));
    assert_eq!(m.make_invisible(7), Err(InvalidHandle));
    assert_eq!(m.remove(7), Err(InvalidHandle));
    assert_eq!(m.swap_by_handle(h, 7), Err(InvalidHandle));
    assert_eq!(m.swap_by_handle(7, 7), Err(InvalidHandle));
    assert_eq!(m.first_invisible, 1);
    assert_eq!(m.get(h), Some(&'a'));
    assert_eq!(InvalidHandle.message(), "invalid handle");
}

#[test]
fn removed_handle_stays_invalid_and_is_not_reused() {
    let mut m = empty();
    let a = m.insert('a');
    assert_eq!(m.remove(a), Ok('a'));
    assert_eq!(m.remove(a), Err(InvalidHandle));
    let b = m.insert('b');
    assert_ne!(a, b);
    assert_eq!(m.get(a), None);
    assert_eq!(m.get(b), Some(&'b'));
}

#[test]
fn get_mut_edits_in_place() {
    let mut m = empty();
    let a = m.insert_visibly('a');
    let b = m.insert('b');
    *m.get_mut(b).unwrap() = 'z';
    assert_eq!(m.get(b), Some(&'z'));
    assert_eq!(m.get(a), Some(&'a'));
    assert_eq!(m.first_invisible, 1);
}

#[test]
fn show_and_hide_are_idempotent() {
    let mut m = empty();
    let a = m.insert('a');
    let b = m.insert('b');
    m.make_visible(b).unwrap();
    let handles = m.handles.clone();
    let first = m.first_invisible;
    m.make_visible(b).unwrap();
    assert_eq!(m.handles, handles);
    assert_eq!(m.first_invisible, first);
    m.make_invisible(a).unwrap();
    assert_eq!(m.handles, handles);
    m.make_invisible(b).unwrap();
    let handles = m.handles.clone();
    m.make_invisible(b).unwrap();
    assert_eq!(m.handles, handles);
    assert_eq!(m.first_invisible, 0);
    check_consistent(&m);
}

#[test]
fn swap_by_handle_updates_map_by_handle() {
    let mut m = empty();
    let a = m.insert_visibly('a');
    let b = m.insert('b');
    assert_eq!(m.swap_by_handle(a, b), Ok(()));
    assert_eq!(m.handle_to_index[&a], 1);
    assert_eq!(m.handle_to_index[&b], 0);
    assert_eq!(m.get(a), Some(&'a'));
    assert_eq!(m.get(b), Some(&'b'));
    assert_eq!(m.in_visible(b), Ok(true));
    assert_eq!(m.in_visible(a), Ok(false));
    assert_eq!(m.swap_by_handle(a, a), Ok(()));
    check_consistent(&m);
}

#[test]
fn swap_by_index_keeps_handles_with_instances() {
    let mut m = empty();
    let a = m.insert('a');
    let b = m.insert('b');
    let c = m.insert('c');
    m.swap_by_index(0, 2);
    assert_eq!(m.instances, vec!['c', 'b', 'a']);
    assert_eq!(m.handles, vec![c, b, a]);
    assert_eq!(m.get(a), Some(&'a'));
    assert_eq!(m.get(c), Some(&'c'));
    check_consistent(&m);
}

#[test]
fn draw_needs_buffers_and_visible_instances() {
    let mut m = empty();
    assert_eq!(m.draw_call(true, true), None);
    m.insert('a');
    assert_eq!(m.draw_call(true, true), None);
    m.insert_visibly('b');
    assert_eq!(m.draw_call(false, true), None);
    assert_eq!(m.draw_call(true, false), None);
    assert_eq!(
        m.draw_call(true, true),
        Some(DrawCall { index_count: 3, instance_count: 1 })
    );
}

#[test]
fn operation_sequences_keep_the_invariants() {
    let mut m = empty();
    let mut issued: Vec<usize> = Vec::new();
    let mut live: Vec<(usize, char)> = Vec::new();
    let mut seed: u64 = 12345;
    for step in 0..2000u32 {
        seed = seed.wrapping_mul(6364136223846793005).wrapping_add(1442695040888963407);
        let r = (seed >> 33) as usize;
        let value = char::from(b'a' + (step % 26) as u8);
        match r % 5 {
            0 | 1 => {
                let h = if r % 2 == 0 { m.insert(value) } else { m.insert_visibly(value) };
                assert!(!issued.contains(&h));
                issued.push(h);
                live.push((h, value));
            }
            2 if !live.is_empty() => {
                let (h, v) = live.swap_remove(r / 5 % live.len());
                let before = m.instances.len();
                assert_eq!(m.remove(h), Ok(v));
                assert_eq!(m.instances.len(), before - 1);
            }
            3 if !live.is_empty() => {
                let (h, _) = live[r / 5 % live.len()];
                m.make_visible(h).unwrap();
                assert_eq!(m.in_visible(h), Ok(true));
            }
            4 if !live.is_empty() => {
                let (h, _) = live[r / 5 % live.len()];
                m.make_invisible(h).unwrap();
                assert_eq!(m.in_visible(h), Ok(false));
            }
            _ => {}
        }
        check_consistent(&m);
        for &(h, v) in &live {
            assert_eq!(m.get(h), Some(&v));
        }
    }
}
