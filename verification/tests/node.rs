use skiplist::node::{Link, Node};
use std::cell::Cell;
use std::rc::Rc;

/// An item that counts how often items of its kind are dropped.
struct Counted(Rc<Cell<usize>>);

impl Drop for Counted {
    fn drop(&mut self) {
        self.0.set(self.0.get() + 1);
    }
}

/// Builds a list with a head of `total_levels` levels and one node per entry, each
/// given as its item and its level, with every link and span set as the levels ask.
fn list(total_levels: usize, entries: &[(i32, usize)]) -> Node<i32> {
    let mut levels = vec![total_levels - 1];
    levels.extend(entries.iter().map(|e| e.1));
    let n = levels.len();
    let mut nodes: Vec<Node<i32>> = vec![Node::head(total_levels)];
    nodes.extend(entries.iter().map(|e| Node::new(e.0, e.1)));
    for i in 0..n {
        for l in 1..=levels[i] {
            match (i + 1..n).find(|&j| levels[j] >= l) {
                Some(j) => {
                    nodes[i].links[l] = Link::Present;
                    nodes[i].links_len[l] = j - i;
                }
                None => {
                    nodes[i].links[l] = Link::Absent;
                    nodes[i].links_len[l] = n - 1 - i;
                }
            }
        }
    }
    let mut tail: Option<Box<Node<i32>>> = None;
    while let Some(mut node) = nodes.pop() {
        if let Some(next) = tail.take() {
            assert!(node.replace_tail(next).is_none());
        }
        tail = Some(Box::new(node));
    }
    *tail.unwrap()
}

/// The nodes of a list, head first.
fn nodes(head: &Node<i32>) -> Vec<&Node<i32>> {
    let mut out = vec![head];
    let mut cur = head;
    while let Some(next) = cur.next_ref() {
        out.push(next);
        cur = next;
    }
    out
}

fn items(head: &Node<i32>) -> Vec<i32> {
    nodes(head)[1..].iter().map(|n| n.item.unwrap()).collect()
}

/// Checks every invariant of a list: shapes, items, back-references, and on every
/// level that the link of each node leads to the nearest later node of that level,
/// `links_len` hops away.
fn assert_consistent(head: &Node<i32>) {
    let all = nodes(head);
    let n = all.len();
    assert!(head.is_head());
    assert!(head.item.is_none());
    for (i, node) in all.iter().enumerate() {
        assert_eq!(node.links.len(), node.level + 1);
        assert_eq!(node.links_len.len(), node.level + 1);
        assert!(node.level <= head.level);
        if i > 0 {
            assert!(!node.is_head());
            assert!(node.item.is_some());
        }
        for l in 0..=node.level {
            let target = (i + 1..n).find(|&j| all[j].level >= l);
            match target {
                Some(j) => {
                    assert_eq!(node.links[l], Link::Present, "node {} level {}", i, l);
                    assert_eq!(node.links_len[l], j - i, "node {} level {}", i, l);
                }
                None => {
                    assert_eq!(node.links[l], Link::Absent, "node {} level {}", i, l);
                    assert_eq!(node.links_len[l], n - 1 - i, "node {} level {}", i, l);
                }
            }
        }
    }
}

#[test]
fn head_is_empty() {
    let head = Node::<i32>::head(4);
    assert!(head.item.is_none());
    assert_eq!(head.level, 3);
    assert!(head.is_head());
    assert_eq!(head.links, vec![Link::Absent; 4]);
    assert_eq!(head.links_len, vec![0; 4]);
    assert!(head.next_ref().is_none());
    assert!(head.into_inner().is_none());
}

#[test]
fn head_of_one_level() {
    let head = Node::<i32>::head(1);
    assert_eq!(head.level, 0);
    assert_eq!(head.links.len(), 1);
    assert_eq!(head.links_len.len(), 1);
}

#[test]
fn new_is_detached() {
    let node = Node::new(7, 2);
    assert_eq!(node.item, Some(7));
    assert_eq!(node.level, 2);
    assert!(node.is_head());
    assert_eq!(node.links, vec![Link::Absent; 3]);
    assert_eq!(node.links_len, vec![0; 3]);
    assert!(node.next_ref().is_none());
    assert_eq!(node.into_inner(), Some(7));
}

#[test]
fn replace_tail_attaches() {
    let mut head = Node::head(1);
    assert!(head.replace_tail(Box::new(Node::new(1, 0))).is_none());
    assert_eq!(head.links[0], Link::Present);
    assert_eq!(head.links_len[0], 1);
    let next = head.next_ref().unwrap();
    assert_eq!(next.item, Some(1));
    assert!(!next.is_head());
    assert!(head.is_head());
}

#[test]
fn replace_tail_returns_old_tail() {
    let mut head = list(1, &[(1, 0), (2, 0)]);
    let old = head.replace_tail(Box::new(Node::new(9, 0))).unwrap();
    assert!(old.is_head());
    assert_eq!(old.item, Some(1));
    assert_eq!(old.next_ref().unwrap().item, Some(2));
    assert_eq!(items(&head), vec![9]);
    assert_eq!(head.links_len[0], 1);
    assert!(!head.next_ref().unwrap().is_head());
}

#[test]
fn take_tail_detaches() {
    let mut head = list(1, &[(1, 0), (2, 0)]);
    let tail = head.take_tail().unwrap();
    assert!(tail.is_head());
    assert_eq!(tail.item, Some(1));
    assert_eq!(tail.links_len[0], 1);
    assert!(!tail.next_ref().unwrap().is_head());
    assert!(head.next_ref().is_none());
    assert_eq!(head.links[0], Link::Absent);
    assert_eq!(head.links_len[0], 0);
}

#[test]
fn take_tail_at_the_end() {
    let mut head = Node::<i32>::head(2);
    head.links_len[1] = 5;
    assert!(head.take_tail().is_none());
    assert_eq!(head.links_len, vec![0, 5]);
    assert_eq!(head.links, vec![Link::Absent; 2]);
}

#[test]
fn next_mut_reaches_the_next_node() {
    let mut head = list(1, &[(1, 0), (2, 0)]);
    head.next_mut().unwrap().item = Some(5);
    assert_eq!(items(&head), vec![5, 2]);
    let mut last = Node::new(3, 0);
    assert!(last.next_mut().is_none());
}

#[test]
fn built_lists_are_consistent() {
    assert_consistent(&list(1, &[]));
    assert_consistent(&list(3, &[]));
    assert_consistent(&list(3, &[(1, 0), (2, 2), (3, 1), (4, 0), (5, 2), (6, 0)]));
}

#[test]
fn retain_even_items() {
    let mut head = list(1, &[(1, 0), (2, 0), (3, 0), (4, 0), (5, 0)]);
    let removed = head.retain(|_, next| *next % 2 == 0);
    assert_eq!(removed, 3);
    assert_eq!(items(&head), vec![2, 4]);
    assert_consistent(&head);
}

#[test]
fn retain_even_items_under_a_tall_head() {
    let mut head = list(3, &[(1, 0), (2, 0), (3, 0), (4, 0), (5, 0)]);
    assert_eq!(head.links_len, vec![1, 5, 5]);
    let removed = head.retain(|_, next| *next % 2 == 0);
    assert_eq!(removed, 3);
    assert_eq!(items(&head), vec![2, 4]);
    assert_eq!(head.links_len, vec![1, 2, 2]);
    assert_consistent(&head);
}

#[test]
fn retain_twice_removes_nothing_more() {
    let mut head = list(3, &[(1, 2), (2, 0), (3, 1), (4, 0), (5, 2), (6, 1), (7, 0)]);
    let first = head.retain(|_, next| *next % 3 != 0);
    assert_eq!(first, 2);
    let left = items(&head);
    assert_eq!(left, vec![1, 2, 4, 5, 7]);
    let second = head.retain(|_, next| *next % 3 != 0);
    assert_eq!(second, 0);
    assert_eq!(items(&head), left);
    assert_consistent(&head);
}

#[test]
fn retain_on_head_alone() {
    let mut head = Node::<i32>::head(1);
    assert_eq!(head.retain(|_, _| false), 0);
    assert!(head.next_ref().is_none());
    assert_consistent(&head);
    let mut tall = Node::<i32>::head(5);
    assert_eq!(tall.retain(|_, _| false), 0);
    assert_consistent(&tall);
}

#[test]
fn retain_all_and_none() {
    let entries = [(1, 1), (2, 0), (3, 2), (4, 0)];
    let mut head = list(3, &entries);
    assert_eq!(head.retain(|_, _| true), 0);
    assert_eq!(items(&head), vec![1, 2, 3, 4]);
    assert_consistent(&head);
    assert_eq!(head.retain(|_, _| false), 4);
    assert_eq!(items(&head), Vec::<i32>::new());
    assert_consistent(&head);
    assert_eq!(head.links, vec![Link::Absent; 3]);
    assert_eq!(head.links_len, vec![0; 3]);
}

#[test]
fn retain_joins_spans_across_a_removed_node() {
    // On level 1 the head reaches 30 in three hops and 30 reaches 50 in two.
    let mut head = list(3, &[(10, 0), (20, 0), (30, 2), (40, 0), (50, 2), (60, 0)]);
    assert_eq!(head.links_len, vec![1, 3, 3]);
    {
        let all = nodes(&head);
        assert_eq!(all[3].links_len, vec![1, 2, 2]);
        assert_eq!(all[3].links, vec![Link::Present; 3]);
        assert_eq!(all[5].links_len, vec![1, 1, 1]);
        assert_eq!(all[5].links, vec![Link::Present, Link::Absent, Link::Absent]);
    }
    let removed = head.retain(|_, next| *next != 30);
    assert_eq!(removed, 1);
    assert_eq!(items(&head), vec![10, 20, 40, 50, 60]);
    // The head's links on levels 1 and 2 now lead to 50: three hops and two, less the
    // removed node.
    assert_eq!(head.links, vec![Link::Present; 3]);
    assert_eq!(head.links_len, vec![1, 4, 4]);
    let all = nodes(&head);
    assert_eq!(all[4].item, Some(50));
    assert_eq!(all[4].level, 2);
    assert_consistent(&head);
}

#[test]
fn retain_shortens_spans_that_cross_a_removed_node() {
    let mut head = list(3, &[(10, 0), (20, 0), (30, 2), (40, 0), (50, 2), (60, 0)]);
    let removed = head.retain(|_, next| *next != 20 && *next != 40 && *next != 60);
    assert_eq!(removed, 3);
    assert_eq!(items(&head), vec![10, 30, 50]);
    assert_eq!(head.links_len, vec![1, 2, 2]);
    let all = nodes(&head);
    assert_eq!(all[2].links_len, vec![1, 1, 1]);
    assert_eq!(all[3].links_len, vec![0, 0, 0]);
    assert_eq!(all[3].links, vec![Link::Absent; 3]);
    assert_consistent(&head);
}

#[test]
fn retain_removes_runs_of_tall_nodes() {
    let mut head = list(4, &[(1, 3), (2, 2), (3, 3), (4, 1), (5, 0), (6, 3), (7, 0)]);
    let removed = head.retain(|_, next| *next == 5 || *next == 7);
    assert_eq!(removed, 5);
    assert_eq!(items(&head), vec![5, 7]);
    assert_eq!(head.links, vec![Link::Present, Link::Absent, Link::Absent, Link::Absent]);
    assert_eq!(head.links_len, vec![1, 2, 2, 2]);
    assert_consistent(&head);
}

#[test]
fn retain_removes_the_last_of_a_level() {
    let mut head = list(3, &[(1, 1), (2, 0), (3, 2), (4, 1)]);
    let removed = head.retain(|_, next| *next != 4 && *next != 3);
    assert_eq!(removed, 2);
    assert_eq!(items(&head), vec![1, 2]);
    assert_eq!(head.links, vec![Link::Present, Link::Present, Link::Absent]);
    assert_eq!(head.links_len, vec![1, 1, 2]);
    let all = nodes(&head);
    assert_eq!(all[1].links, vec![Link::Present, Link::Absent]);
    assert_eq!(all[1].links_len, vec![1, 1]);
    assert_consistent(&head);
}

#[test]
fn retain_shows_the_last_kept_item() {
    let mut head = list(2, &[(1, 0), (1, 1), (2, 0), (2, 0), (2, 1), (3, 0), (1, 0)]);
    let mut seen = Vec::new();
    let removed = head.retain(|current, next| {
        seen.push((current.copied(), *next));
        current != Some(next)
    });
    assert_eq!(removed, 3);
    assert_eq!(items(&head), vec![1, 2, 3, 1]);
    assert_eq!(
        seen,
        vec![
            (None, 1),
            (Some(1), 1),
            (Some(1), 2),
            (Some(2), 2),
            (Some(2), 2),
            (Some(2), 3),
            (Some(3), 1)
        ]
    );
    assert_consistent(&head);
}

#[test]
fn retain_keeps_one_head() {
    let mut head = list(3, &[(1, 2), (2, 0), (3, 1), (4, 0)]);
    let _ = head.retain(|_, next| *next != 1 && *next != 4);
    let all = nodes(&head);
    assert_eq!(all.iter().filter(|n| n.is_head()).count(), 1);
    assert!(all[0].is_head());
    assert!(all[0].item.is_none());
    assert_eq!(all[0].level, 2);
}

#[test]
fn retain_keeps_levels_of_kept_nodes() {
    let mut head = list(3, &[(1, 2), (2, 0), (3, 1), (4, 0), (5, 2)]);
    let _ = head.retain(|_, next| *next % 2 == 1);
    let levels: Vec<usize> = nodes(&head)[1..].iter().map(|n| n.level).collect();
    assert_eq!(items(&head), vec![1, 3, 5]);
    assert_eq!(levels, vec![2, 1, 2]);
    assert_consistent(&head);
}

#[test]
fn retain_on_a_long_list() {
    let entries: Vec<(i32, usize)> =
        (0..2000).map(|i| (i, (i as usize).trailing_zeros().min(4) as usize)).collect();
    let mut head = list(5, &entries);
    assert_consistent(&head);
    let removed = head.retain(|_, next| *next % 7 != 0 && *next % 16 != 0);
    let expected: Vec<i32> = (0..2000).filter(|i| i % 7 != 0 && i % 16 != 0).collect();
    assert_eq!(removed, 2000 - expected.len());
    assert_eq!(items(&head), expected);
    assert_consistent(&head);
}

#[test]
fn node_displays_its_item() {
    assert_eq!(Node::new(42, 0).to_string(), "42");
    assert_eq!(Node::new("a b", 3).to_string(), "a b");
    assert_eq!(Node::<i32>::head(2).to_string(), "");
}

#[test]
fn splices_keep_level_zero_spans() {
    let mut head = Node::head(1);
    for item in [3, 2, 1] {
        let mut node = Box::new(Node::new(item, 0));
        if let Some(rest) = head.take_tail() {
            assert!(node.replace_tail(rest).is_none());
        }
        assert!(head.replace_tail(node).is_none());
        assert_consistent(&head);
    }
    assert_eq!(items(&head), vec![1, 2, 3]);
    let rest = head.take_tail().unwrap();
    assert_consistent(&head);
    assert_eq!(rest.links_len[0], 1);
    assert_eq!(rest.next_ref().unwrap().next_ref().unwrap().links_len[0], 0);
}

#[test]
fn long_lists_are_dropped_node_by_node() {
    let entries: Vec<(i32, usize)> = (0..400_000).map(|i| (i, 0)).collect();
    let mut head = list(1, &entries);
    let removed = head.retain(|_, next| *next % 2 == 0);
    assert_eq!(removed, 200_000);
    assert_eq!(nodes(&head).len(), 200_001);
    let tail = head.take_tail();
    assert!(head.next_ref().is_none());
    drop(tail);
    drop(head);
}

#[test]
fn dropping_a_list_drops_every_item_once() {
    let drops = Rc::new(Cell::new(0));
    let mut head = Node::head(1);
    for _ in 0..10 {
        let mut node = Box::new(Node::new(Counted(drops.clone()), 0));
        if let Some(rest) = head.take_tail() {
            assert!(node.replace_tail(rest).is_none());
        }
        assert!(head.replace_tail(node).is_none());
    }
    let mut calls = 0;
    let removed = head.retain(|_, _| {
        calls += 1;
        calls % 2 == 0
    });
    assert_eq!(removed, 5);
    assert_eq!(drops.get(), 5);
    let first = head.take_tail().unwrap();
    let item = first.into_inner();
    assert_eq!(drops.get(), 9);
    drop(item);
    assert_eq!(drops.get(), 10);
    drop(head);
    assert_eq!(drops.get(), 10);
}
