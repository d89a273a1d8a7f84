use std::rc::Rc;

use heapless::deque::DequeBuffer;
use heapless::{Deque, DequeView};

/// A value that counts, through a shared handle, how many of its kind are
/// alive.
struct Droppable {
    alive: Rc<()>,
}

impl Droppable {
    fn new(alive: &Rc<()>) -> Droppable {
        Droppable { alive: Rc::clone(alive) }
    }
}

fn count(alive: &Rc<()>) -> usize {
    Rc::strong_count(alive) - 1
}

#[test]
fn deque_static_new() {
    let _v: Deque<i32, 4> = Deque::new();
}

#[test]
fn deque_stack_new() {
    let mut _v: Deque<i32, 4> = Deque::new();
}

#[test]
fn deque_drop() {
    let alive = Rc::new(());
    {
        let mut v: Deque<Droppable, 2> = Deque::new();
        v.push_back(Droppable::new(&alive)).ok().unwrap();
        v.push_back(Droppable::new(&alive)).ok().unwrap();
        v.pop_front().unwrap();
    }

    assert_eq!(count(&alive), 0);

    {
        let mut v: Deque<Droppable, 2> = Deque::new();
        v.push_back(Droppable::new(&alive)).ok().unwrap();
        v.push_back(Droppable::new(&alive)).ok().unwrap();
    }

    assert_eq!(count(&alive), 0);
    {
        let mut v: Deque<Droppable, 2> = Deque::new();
        v.push_front(Droppable::new(&alive)).ok().unwrap();
        v.push_front(Droppable::new(&alive)).ok().unwrap();
    }

    assert_eq!(count(&alive), 0);
}

#[test]
fn drop_view() {
    let alive = Rc::new(());
    {
        let mut d: Deque<Droppable, 2> = Deque::new();
        let v: &mut DequeView<Droppable> = d.as_mut_view();
        v.push_back(Droppable::new(&alive)).ok().unwrap();
        v.push_back(Droppable::new(&alive)).ok().unwrap();
        assert_eq!(count(&alive), 2);
        v.pop_front().unwrap();
        assert_eq!(count(&alive), 1);
    }

    assert_eq!(count(&alive), 0);

    {
        let mut d: Deque<Droppable, 2> = Deque::new();
        let v: &mut DequeView<Droppable> = d.as_mut_view();
        v.push_back(Droppable::new(&alive)).ok().unwrap();
        v.push_back(Droppable::new(&alive)).ok().unwrap();
        assert_eq!(count(&alive), 2);
    }

    assert_eq!(count(&alive), 0);
    {
        let mut d: Deque<Droppable, 2> = Deque::new();
        let v: &mut DequeView<Droppable> = d.as_mut_view();
        v.push_front(Droppable::new(&alive)).ok().unwrap();
        v.push_front(Droppable::new(&alive)).ok().unwrap();
        assert_eq!(count(&alive), 2);
    }

    assert_eq!(count(&alive), 0);
}

#[test]
fn deque_full() {
    let mut v: Deque<i32, 4> = Deque::new();

    v.push_back(0).unwrap();
    v.push_front(1).unwrap();
    v.push_back(2).unwrap();
    v.push_back(3).unwrap();

    assert!(v.push_front(4).is_err());
    assert!(v.push_back(4).is_err());
    assert!(v.is_full());
}

#[test]
fn empty() {
    let mut v: Deque<i32, 4> = Deque::new();
    assert!(v.is_empty());

    v.push_back(0).unwrap();
    assert!(!v.is_empty());

    v.push_front(1).unwrap();
    assert!(!v.is_empty());

    v.pop_front().unwrap();
    v.pop_front().unwrap();

    assert!(v.pop_front().is_none());
    assert!(v.pop_back().is_none());
    assert!(v.is_empty());
}

#[test]
fn front_back() {
    let mut v: Deque<i32, 4> = Deque::new();
    assert_eq!(v.front(), None);
    assert_eq!(v.front_mut(), None);
    assert_eq!(v.back(), None);
    assert_eq!(v.back_mut(), None);

    v.push_back(4).unwrap();
    assert_eq!(v.front(), Some(&4));
    assert_eq!(v.front_mut(), Some(&mut 4));
    assert_eq!(v.back(), Some(&4));
    assert_eq!(v.back_mut(), Some(&mut 4));

    v.push_front(3).unwrap();
    assert_eq!(v.front(), Some(&3));
    assert_eq!(v.front_mut(), Some(&mut 3));
    assert_eq!(v.back(), Some(&4));
    assert_eq!(v.back_mut(), Some(&mut 4));

    v.pop_back().unwrap();
    assert_eq!(v.front(), Some(&3));
    assert_eq!(v.front_mut(), Some(&mut 3));
    assert_eq!(v.back(), Some(&3));
    assert_eq!(v.back_mut(), Some(&mut 3));

    v.pop_front().unwrap();
    assert_eq!(v.front(), None);
    assert_eq!(v.front_mut(), None);
    assert_eq!(v.back(), None);
    assert_eq!(v.back_mut(), None);
}

#[test]
fn extend() {
    let mut v: Deque<i32, 4> = Deque::new();
    v.extend(&[1, 2, 3]);
    assert_eq!(v.pop_front().unwrap(), 1);
    assert_eq!(v.pop_front().unwrap(), 2);
    assert_eq!(*v.front().unwrap(), 3);

    v.push_back(4).unwrap();
    v.extend(&[5, 6]);
    assert_eq!(v.pop_front().unwrap(), 3);
    assert_eq!(v.pop_front().unwrap(), 4);
    assert_eq!(v.pop_front().unwrap(), 5);
    assert_eq!(v.pop_front().unwrap(), 6);
    assert!(v.pop_front().is_none());
}

#[test]
fn deque_iter() {
    let mut v: Deque<i32, 4> = Deque::new();

    v.push_back(0).unwrap();
    v.push_back(1).unwrap();
    v.push_front(2).unwrap();
    v.push_front(3).unwrap();
    v.pop_back().unwrap();
    v.push_front(4).unwrap();

    let mut items = v.iter();

    assert_eq!(items.next(), Some(&4));
    assert_eq!(items.next(), Some(&3));
    assert_eq!(items.next(), Some(&2));
    assert_eq!(items.next(), Some(&0));
    assert_eq!(items.next(), None);
}

#[test]
fn deque_iter_move() {
    let mut v: Deque<i32, 4> = Deque::new();
    v.push_back(0).unwrap();
    v.push_back(1).unwrap();
    v.push_back(2).unwrap();
    v.push_back(3).unwrap();

    let mut items = v.into_iter();

    assert_eq!(items.next(), Some(0));
    assert_eq!(items.next(), Some(1));
    assert_eq!(items.next(), Some(2));
    assert_eq!(items.next(), Some(3));
    assert_eq!(items.next(), None);
}

#[test]
fn deque_iter_move_drop() {
    let alive = Rc::new(());
    {
        let mut deque: Deque<Droppable, 2> = Deque::new();
        deque.push_back(Droppable::new(&alive)).ok().unwrap();
        deque.push_back(Droppable::new(&alive)).ok().unwrap();
        let mut items = deque.into_iter();
        // Move all
        let _ = items.next().unwrap();
        let _ = items.next().unwrap();
    }

    assert_eq!(count(&alive), 0);

    {
        let mut deque: Deque<Droppable, 2> = Deque::new();
        deque.push_back(Droppable::new(&alive)).ok().unwrap();
        deque.push_back(Droppable::new(&alive)).ok().unwrap();
        let _items = deque.into_iter();
        // Move none
    }

    assert_eq!(count(&alive), 0);

    {
        let mut deque: Deque<Droppable, 2> = Deque::new();
        deque.push_back(Droppable::new(&alive)).ok().unwrap();
        deque.push_back(Droppable::new(&alive)).ok().unwrap();
        let mut items = deque.into_iter();
        let _ = items.next(); // Move partly
    }

    assert_eq!(count(&alive), 0);
}

#[test]
fn deque_push_and_pop() {
    let mut q: Deque<i32, 4> = Deque::new();
    assert_eq!(q.len(), 0);

    assert_eq!(q.pop_front(), None);
    assert_eq!(q.pop_back(), None);
    assert_eq!(q.len(), 0);

    q.push_back(0).unwrap();
    assert_eq!(q.len(), 1);

    assert_eq!(q.pop_back(), Some(0));
    assert_eq!(q.len(), 0);

    q.push_back(0).unwrap();
    q.push_back(1).unwrap();
    q.push_front(2).unwrap();
    q.push_front(3).unwrap();
    assert_eq!(q.len(), 4);

    // deque contains: 3 2 0 1
    assert_eq!(q.pop_front(), Some(3));
    assert_eq!(q.len(), 3);
    assert_eq!(q.pop_front(), Some(2));
    assert_eq!(q.len(), 2);
    assert_eq!(q.pop_back(), Some(1));
    assert_eq!(q.len(), 1);
    assert_eq!(q.pop_front(), Some(0));
    assert_eq!(q.len(), 0);

    // deque is now empty
    assert_eq!(q.pop_front(), None);
    assert_eq!(q.pop_back(), None);
    assert_eq!(q.len(), 0);
}

#[test]
fn as_slices() {
    let mut q: Deque<i32, 4> = Deque::new();
    assert_eq!(q.len(), 0);

    q.push_back(0).unwrap();
    q.push_back(1).unwrap();
    q.push_back(2).unwrap();
    q.push_back(3).unwrap();
    assert_eq!(q.as_slices(), (vec![&0, &1, &2, &3], vec![]));

    q.pop_front().unwrap();
    assert_eq!(q.as_slices(), (vec![&1, &2, &3], vec![]));

    q.push_back(4).unwrap();
    assert_eq!(q.as_slices(), (vec![&1, &2, &3], vec![&4]));
}

#[test]
fn clear() {
    let mut q: Deque<i32, 4> = Deque::new();
    assert_eq!(q.len(), 0);

    q.push_back(0).unwrap();
    q.push_back(1).unwrap();
    q.push_back(2).unwrap();
    q.push_back(3).unwrap();
    assert_eq!(q.len(), 4);

    q.clear();
    assert_eq!(q.len(), 0);

    q.push_back(0).unwrap();
    assert_eq!(q.len(), 1);
}

#[test]
fn make_contiguous() {
    let mut q: Deque<i32, 4> = Deque::new();
    assert_eq!(q.len(), 0);

    q.push_back(0).unwrap();
    q.push_back(1).unwrap();
    q.push_back(2).unwrap();
    q.push_back(3).unwrap();

    // Deque contains: 0, 1, 2, 3
    assert_eq!(q.pop_front(), Some(0));
    assert_eq!(q.pop_front(), Some(1));

    // Deque contains: ., ., 2, 3
    q.push_back(4).unwrap();

    // Deque contains: 4, ., 2, 3
    assert_eq!(q.as_slices(), (vec![&2, &3], vec![&4]));

    assert_eq!(q.make_contiguous(), vec![&2, &3, &4]);

    // Deque contains: ., 2, 3, 4
    assert_eq!(q.as_slices(), (vec![&2, &3, &4], vec![]));

    assert_eq!(q.pop_front(), Some(2));
    assert_eq!(q.pop_front(), Some(3));
    q.push_back(5).unwrap();
    q.push_back(6).unwrap();

    // Deque contains: 5, 6, ., 4
    assert_eq!(q.as_slices(), (vec![&4], vec![&5, &6]));

    assert_eq!(q.make_contiguous(), vec![&4, &5, &6]);

    // Deque contains: 4, 5, 6, .
    assert_eq!(q.as_slices(), (vec![&4, &5, &6], vec![]));

    assert_eq!(q.pop_front(), Some(4));
    q.push_back(7).unwrap();
    q.push_back(8).unwrap();

    // Deque contains: 8, 5, 6, 7
    assert_eq!(q.as_slices(), (vec![&5, &6, &7], vec![&8]));

    assert_eq!(q.make_contiguous(), vec![&5, &6, &7, &8]);

    // Deque contains: 5, 6, 7, 8
    assert_eq!(q.as_slices(), (vec![&5, &6, &7, &8], vec![]));
}

/// Fills a deque of capacity 8 with `0..8`, pops `popped` from the front and
/// pushes the values `8..8 + pushed` at the back.
fn wrapped(popped: i32, pushed: i32) -> Deque<i32, 8> {
    let mut q: Deque<i32, 8> = Deque::new();
    for i in 0..8 {
        q.push_back(i).unwrap();
    }
    for _ in 0..popped {
        q.pop_front().unwrap();
    }
    for i in 8..8 + pushed {
        q.push_back(i).unwrap();
    }
    q
}

#[test]
fn make_contiguous_moves_head_down_past_tail() {
    // head 3..7 at slots 3..8, tail 8..10 at slots 0..2, one free slot
    let mut q = wrapped(3, 2);
    assert_eq!(q.as_slices(), (vec![&3, &4, &5, &6, &7], vec![&8, &9]));
    assert_eq!(q.make_contiguous(), vec![&3, &4, &5, &6, &7, &8, &9]);
    assert_eq!(q.as_slices(), (vec![&3, &4, &5, &6, &7, &8, &9], vec![]));
    // the run now starts at slot 1, so the next push wraps to slot 0
    q.push_back(10).unwrap();
    assert!(q.is_full());
    assert_eq!(q.as_slices(), (vec![&3, &4, &5, &6, &7, &8, &9], vec![&10]));
}

#[test]
fn make_contiguous_copies_tail_above_head() {
    // head 4..8 at slots 4..8, tail 8 at slot 0, three free slots
    let mut q = wrapped(4, 1);
    assert_eq!(q.as_slices(), (vec![&4, &5, &6, &7], vec![&8]));
    assert_eq!(q.make_contiguous(), vec![&4, &5, &6, &7, &8]);
    assert_eq!(q.as_slices(), (vec![&4, &5, &6, &7, &8], vec![]));
    // the run now starts at slot 1 and ends before slot 6
    q.push_back(9).unwrap();
    q.push_back(10).unwrap();
    q.push_back(11).unwrap();
    assert!(q.is_full());
    assert_eq!(q.as_slices(), (vec![&4, &5, &6, &7, &8, &9, &10], vec![&11]));
    assert_eq!(q.pop_back(), Some(11));
    assert_eq!(q.pop_front(), Some(4));
}

#[test]
fn make_contiguous_rotates_when_head_is_shorter() {
    // head 5..8 at slots 5..8, tail 8..12 at slots 0..4, one free slot
    let mut q = wrapped(5, 4);
    assert_eq!(q.as_slices(), (vec![&5, &6, &7], vec![&8, &9, &10, &11]));
    assert_eq!(q.make_contiguous(), vec![&5, &6, &7, &8, &9, &10, &11]);
    assert_eq!(q.as_slices(), (vec![&5, &6, &7, &8, &9, &10, &11], vec![]));
    q.push_back(12).unwrap();
    assert!(q.is_full());
    assert_eq!(q.as_slices(), (vec![&5, &6, &7, &8, &9, &10, &11, &12], vec![]));
}

#[test]
fn make_contiguous_on_a_full_wrapped_deque() {
    let mut q: Deque<i32, 4> = Deque::new();
    for i in 0..4 {
        q.push_back(i).unwrap();
    }
    q.pop_front().unwrap();
    q.pop_front().unwrap();
    q.push_back(4).unwrap();
    q.push_back(5).unwrap();
    assert!(q.is_full());
    assert_eq!(q.as_slices(), (vec![&2, &3], vec![&4, &5]));
    assert_eq!(q.make_contiguous(), vec![&2, &3, &4, &5]);
    assert_eq!(q.as_slices(), (vec![&2, &3, &4, &5], vec![]));
    assert_eq!(q.pop_back(), Some(5));
    q.push_back(6).unwrap();
    assert_eq!(q.as_slices(), (vec![&2, &3, &4, &6], vec![]));
    assert!(q.push_back(7).is_err());
}

#[test]
fn make_contiguous_on_empty_and_contiguous_deques() {
    let mut q: Deque<i32, 4> = Deque::new();
    assert_eq!(q.make_contiguous(), Vec::<&i32>::new());
    assert_eq!(q.as_slices(), (vec![], vec![]));
    q.push_back(1).unwrap();
    q.push_back(2).unwrap();
    assert_eq!(q.make_contiguous(), vec![&1, &2]);
    assert_eq!(q.as_slices(), (vec![&1, &2], vec![]));
}

#[test]
fn length_counts_pushes_and_pops() {
    let mut q: Deque<i32, 3> = Deque::new();
    q.push_back(1).unwrap();
    q.push_front(2).unwrap();
    q.pop_back().unwrap();
    q.push_back(3).unwrap();
    q.push_front(4).unwrap();
    q.pop_front().unwrap();
    // four pushes, two pops
    assert_eq!(q.len(), 2);
}

#[test]
fn pushing_back_then_popping_front_keeps_the_order() {
    let mut q: Deque<i32, 5> = Deque::new();
    for x in [7, 1, 9, 3, 5] {
        q.push_back(x).unwrap();
    }
    let mut out = Vec::new();
    while let Some(x) = q.pop_front() {
        out.push(x);
    }
    assert_eq!(out, vec![7, 1, 9, 3, 5]);
}

#[test]
fn pushing_front_then_popping_back_keeps_the_order() {
    let mut q: Deque<i32, 5> = Deque::new();
    for x in [7, 1, 9, 3, 5] {
        q.push_front(x).unwrap();
    }
    let mut out = Vec::new();
    while let Some(x) = q.pop_back() {
        out.push(x);
    }
    assert_eq!(out, vec![7, 1, 9, 3, 5]);
}

#[test]
fn popping_the_same_end_reverses_the_order() {
    let mut q: Deque<i32, 4> = Deque::new();
    for x in [1, 2, 3] {
        q.push_back(x).unwrap();
    }
    assert_eq!(q.pop_back(), Some(3));
    assert_eq!(q.pop_back(), Some(2));
    assert_eq!(q.pop_back(), Some(1));
    for x in [1, 2, 3] {
        q.push_front(x).unwrap();
    }
    assert_eq!(q.pop_front(), Some(3));
    assert_eq!(q.pop_front(), Some(2));
    assert_eq!(q.pop_front(), Some(1));
}

#[test]
fn full_and_empty_follow_the_length() {
    let mut q: Deque<i32, 2> = Deque::new();
    assert!(q.is_empty() && !q.is_full());
    q.push_back(1).unwrap();
    assert!(!q.is_empty() && !q.is_full());
    q.push_front(0).unwrap();
    assert!(!q.is_empty() && q.is_full());
    assert_eq!(q.len(), q.capacity());
    q.pop_back().unwrap();
    q.pop_back().unwrap();
    assert!(q.is_empty() && !q.is_full());
}

#[test]
fn rejected_push_hands_the_item_back() {
    let mut q: Deque<i32, 1> = Deque::new();
    q.push_back(1).unwrap();
    assert_eq!(q.push_back(2), Err(2));
    assert_eq!(q.push_front(3), Err(3));
    assert_eq!(q.as_slices(), (vec![&1], vec![]));
}

#[test]
fn view_shares_the_deque() {
    let mut d: Deque<i32, 3> = Deque::new();
    {
        let v = d.as_mut_view();
        assert_eq!(v.capacity(), 3);
        v.push_back(1).unwrap();
        v.push_front(0).unwrap();
    }
    assert_eq!(d.len(), 2);
    let v = d.as_view();
    assert_eq!(v.front(), Some(&0));
    assert_eq!(v.back(), Some(&1));
    let mut it = v.iter();
    assert_eq!(it.next_back(), Some(&1));
    assert_eq!(it.next(), Some(&0));
    assert_eq!(it.next(), None);
}

#[test]
fn front_mut_and_back_mut_write_through() {
    let mut q: Deque<i32, 3> = Deque::new();
    q.push_back(1).unwrap();
    q.push_back(2).unwrap();
    *q.front_mut().unwrap() = 10;
    *q.back_mut().unwrap() = 20;
    assert_eq!(q.as_slices(), (vec![&10, &20], vec![]));
}

#[test]
fn iter_walks_both_ends_of_a_wrapped_deque() {
    let q = wrapped(6, 3);
    let mut it = q.iter();
    assert_eq!(it.next(), Some(&6));
    assert_eq!(it.next_back(), Some(&10));
    assert_eq!(it.next(), Some(&7));
    assert_eq!(it.next(), Some(&8));
    assert_eq!(it.next_back(), Some(&9));
    assert_eq!(it.next(), None);
    assert_eq!(it.next_back(), None);
}

#[test]
fn unchecked_pushes_and_pops() {
    let mut q: Deque<i32, 2> = Deque::new();
    q.push_back_unchecked(1);
    q.push_front_unchecked(0);
    assert!(q.is_full());
    assert_eq!(q.pop_back_unchecked(), 1);
    assert_eq!(q.pop_front_unchecked(), 0);
    assert!(q.is_empty());
}

fn total_through_view<D: DequeBuffer<T = i32>>(d: &D) -> i32 {
    let mut sum = 0;
    let mut it = d.as_view().iter();
    while let Some(x) = it.next() {
        sum += *x;
    }
    sum
}

#[test]
fn any_deque_lends_a_view() {
    let mut d: Deque<i32, 4> = Deque::new();
    d.push_back(1).unwrap();
    d.push_back(2).unwrap();
    d.push_front(3).unwrap();
    assert_eq!(total_through_view(&d), 6);
    assert_eq!(total_through_view(Deque::as_view(&d)), 6);
    DequeBuffer::as_mut_view(&mut d).pop_front().unwrap();
    assert_eq!(total_through_view(&d), 3);
}

#[test]
fn size_hint_counts_what_is_left() {
    let mut q: Deque<i32, 4> = Deque::new();
    q.push_back(1).unwrap();
    q.push_back(2).unwrap();
    q.push_back(3).unwrap();
    let mut it = q.iter();
    assert_eq!(it.size_hint(), (3, Some(3)));
    it.next();
    it.next_back();
    assert_eq!(it.size_hint(), (1, Some(1)));
}

#[test]
fn clone_copies_the_contents() {
    let mut q: Deque<i32, 3> = Deque::new();
    q.push_back(1).unwrap();
    q.push_front(0).unwrap();
    let mut c = q.clone();
    assert_eq!(c.pop_front(), Some(0));
    assert_eq!(c.pop_front(), Some(1));
    assert_eq!(q.as_slices(), (vec![&0], vec![&1]));
}

#[test]
fn make_contiguous_works_for_owned_elements() {
    let mut q: Deque<String, 3> = Deque::new();
    q.push_back(String::from("b")).unwrap();
    q.push_back(String::from("c")).unwrap();
    q.push_back(String::from("d")).unwrap();
    q.pop_front().unwrap();
    q.push_back(String::from("e")).unwrap();
    let (first, second) = q.as_slices();
    assert_eq!(first, vec!["c", "d"]);
    assert_eq!(second, vec!["e"]);
    assert_eq!(q.make_contiguous(), vec!["c", "d", "e"]);
    let (first, second) = q.as_slices();
    assert_eq!(first, vec!["c", "d", "e"]);
    assert!(second.is_empty());
}

#[test]
fn get_mut_reaches_every_position() {
    let mut q = wrapped(6, 3);
    *q.get_mut(0).unwrap() += 100;
    *q.get_mut(3).unwrap() += 100;
    assert!(q.get_mut(5).is_none());
    assert_eq!(q.pop_front(), Some(106));
    assert_eq!(q.pop_front(), Some(7));
    assert_eq!(q.pop_front(), Some(8));
    assert_eq!(q.pop_front(), Some(109));
    let view = q.as_mut_view();
    *view.get_mut(0).unwrap() = 0;
    assert_eq!(q.front(), Some(&0));
}
