use datdot::tree::Node;

fn node_at(index: u64) -> Node {
    Node { index, hash: [0u8; 32], size: 0 }
}

#[test]
fn height_counts_trailing_one_bits() {
    assert_eq!(Node::get_height(0), 0);
    assert_eq!(Node::get_height(1), 1);
    assert_eq!(Node::get_height(3), 2);
    assert_eq!(Node::get_height(7), 3);
    assert_eq!(Node::get_height(6), 0);
    assert_eq!(Node::get_height(5), 1);
    assert_eq!(Node::get_height(4), 0);
    assert_eq!(Node::get_height(2), 0);
    assert_eq!(Node::get_height(11), 2);
    assert_eq!(Node::get_height(0b1011_1111), 6);
}

#[test]
fn height_agrees_with_the_bit_count_of_std() {
    let mut index: u64 = 0;
    while index < 5000 {
        assert_eq!(Node::get_height(index), u64::from(index.trailing_ones()));
        index += 1;
    }
    assert_eq!(Node::get_height(u64::MAX), 64);
    assert_eq!(Node::get_height(u64::MAX - 1), 0);
    assert_eq!(Node::get_height(u64::MAX >> 1), 63);
}

#[test]
fn height_of_a_node_is_the_height_of_its_index() {
    assert_eq!(node_at(7).height(), 3);
    assert_eq!(node_at(8).height(), 0);
}

#[test]
fn relative_index_divides_by_two_to_the_height() {
    assert_eq!(node_at(7).relative_index(), 0);
    assert_eq!(node_at(5).relative_index(), 2);
    assert_eq!(node_at(4).relative_index(), 4);
    assert_eq!(node_at(11).relative_index(), 2);
    assert_eq!(node_at(23).relative_index(), 2);
    assert_eq!(Node::index_at_height(100, 3), 12);
    assert_eq!(Node::index_at_height(100, 0), 100);
}

#[test]
fn top_index_at_height_zero_is_the_bound() {
    assert_eq!(Node::top_index_at_height(0, 0), Some(0));
    assert_eq!(Node::top_index_at_height(0, 1), Some(1));
    assert_eq!(Node::top_index_at_height(0, 9), Some(9));
}

#[test]
fn top_index_above_height_zero() {
    assert_eq!(Node::top_index_at_height(1, 0), None);
    assert_eq!(Node::top_index_at_height(1, 1), None);
    assert_eq!(Node::top_index_at_height(1, 2), Some(1));
    assert_eq!(Node::top_index_at_height(1, 5), Some(1));
    assert_eq!(Node::top_index_at_height(1, 6), Some(5));
    assert_eq!(Node::top_index_at_height(1, 9), Some(5));
    assert_eq!(Node::top_index_at_height(1, 10), Some(9));
    assert_eq!(Node::top_index_at_height(2, 3), None);
    assert_eq!(Node::top_index_at_height(2, 4), Some(3));
    assert_eq!(Node::top_index_at_height(2, 10), Some(3));
    assert_eq!(Node::top_index_at_height(2, 13), Some(3));
    assert_eq!(Node::top_index_at_height(2, 14), Some(11));
    assert_eq!(Node::top_index_at_height(3, 7), None);
    assert_eq!(Node::top_index_at_height(3, 8), Some(7));
    assert_eq!(Node::top_index_at_height(3, 30), Some(23));
}

#[test]
fn highest_peak_of_small_trees() {
    assert_eq!(Node::highest_at_index(0), 0);
    assert_eq!(Node::highest_at_index(1), 0);
    assert_eq!(Node::highest_at_index(2), 1);
    assert_eq!(Node::highest_at_index(5), 1);
    assert_eq!(Node::highest_at_index(6), 2);
    assert_eq!(Node::highest_at_index(13), 2);
    assert_eq!(Node::highest_at_index(14), 3);
    assert_eq!(Node::highest_at_index(29), 3);
    assert_eq!(Node::highest_at_index(30), 4);
}

#[test]
fn highest_peak_of_the_greatest_bound() {
    assert_eq!(Node::highest_at_index(u64::MAX), 63);
    assert_eq!(Node::highest_at_index(u64::MAX - 1), 63);
    assert_eq!(Node::highest_at_index(u64::MAX - 2), 62);
}

#[test]
fn peaks_of_the_tree_bounded_at_zero() {
    assert_eq!(Node::get_orphan_indeces(0), vec![0u64]);
}

#[test]
fn peaks_of_the_tree_bounded_at_two() {
    assert_eq!(Node::get_orphan_indeces(2), vec![2u64]);
}

#[test]
fn peaks_of_small_trees() {
    let empty: Vec<u64> = Vec::new();
    assert_eq!(Node::get_orphan_indeces(1), empty);
    assert_eq!(Node::get_orphan_indeces(3), empty);
    assert_eq!(Node::get_orphan_indeces(4), vec![4u64]);
    assert_eq!(Node::get_orphan_indeces(5), empty);
    assert_eq!(Node::get_orphan_indeces(6), vec![6u64]);
    assert_eq!(Node::get_orphan_indeces(7), empty);
    assert_eq!(Node::get_orphan_indeces(8), vec![8u64]);
    assert_eq!(Node::get_orphan_indeces(9), empty);
    assert_eq!(Node::get_orphan_indeces(10), vec![10u64]);
}

#[test]
fn peaks_are_the_even_bound_alone() {
    let mut bound: u64 = 0;
    while bound < 300 {
        let peaks = Node::get_orphan_indeces(bound);
        if bound % 2 == 0 {
            assert_eq!(peaks, vec![bound]);
        } else {
            assert!(peaks.is_empty());
        }
        bound += 1;
    }
}

#[test]
fn is_orphan_tests_membership_in_the_peaks() {
    assert!(node_at(4).is_orphan(4));
    assert!(!node_at(3).is_orphan(4));
    assert!(!node_at(5).is_orphan(5));
    assert!(node_at(0).is_orphan(0));
    assert!(!node_at(0).is_orphan(2));
}
