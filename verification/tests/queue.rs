use ttx_runtime::circular_buffer::{
    CbConsumer, CbConsumerMut, CbObserver, CbObserverMut, CbProducer, CbProducerMut, LocalQueue,
};
use ttx_runtime::firmware::dram_pull;

#[test]
fn a_new_queue_is_empty() {
    let mut queue = LocalQueue::new(4);
    assert_eq!(queue.get_read(), 0);
    assert_eq!(queue.get_write(), 0);
    assert_eq!(queue.get_capacity(), 4);
    assert_eq!(queue.read_size(), 0);
    assert!(LocalQueue::empty(0, 0));
    assert!(!LocalQueue::full(0, 0, 4));
}

#[test]
fn indices_run_to_twice_the_capacity() {
    assert_eq!(LocalQueue::size(0, 4, 4), 4);
    assert_eq!(LocalQueue::size(4, 4, 4), 0);
    assert_eq!(LocalQueue::size(6, 2, 4), 4);
    assert_eq!(LocalQueue::size(7, 0, 4), 1);
    assert_eq!(LocalQueue::free(7, 0, 4), 3);
    assert!(LocalQueue::full(0, 4, 4));
    assert!(LocalQueue::full(5, 1, 4));
    assert!(!LocalQueue::full(5, 0, 4));
    assert!(!LocalQueue::empty(0, 4));
}

#[test]
fn bytes_come_out_in_the_order_they_went_in() {
    let mut queue = LocalQueue::new(4);
    assert_eq!(queue.push(&[1, 2, 3]), 3);
    assert_eq!(queue.read_size(), 3);
    let mut output = [0; 2];
    assert_eq!(queue.pop(&mut output), 2);
    assert_eq!(output, [1, 2]);
    assert_eq!(queue.push(&[4, 5, 6]), 3);
    assert_eq!(queue.read_size(), 4);
    let mut output = [0; 4];
    queue.pop_all(&mut output);
    assert_eq!(output, [3, 4, 5, 6]);
    assert_eq!(queue.read_size(), 0);
}

#[test]
fn the_queue_works_over_many_turns() {
    let mut queue = LocalQueue::new(5);
    let mut next: u8 = 0;
    let mut expected: u8 = 0;
    for _ in 0..100 {
        let input = [next, next.wrapping_add(1), next.wrapping_add(2)];
        queue.push_all(&input);
        next = next.wrapping_add(3);
        let mut output = [0; 3];
        queue.pop_all(&mut output);
        for byte in output {
            assert_eq!(byte, expected);
            expected = expected.wrapping_add(1);
        }
    }
}

#[test]
fn popping_an_empty_queue_leaves_the_output() {
    let mut queue = LocalQueue::new(4);
    let mut output = [7, 7];
    assert_eq!(queue.pop(&mut output), 0);
    assert_eq!(output, [7, 7]);
}

#[test]
fn a_pop_gives_no_more_than_there_is() {
    let mut queue = LocalQueue::new(8);
    assert_eq!(queue.push(&[1, 2]), 2);
    let mut output = [0; 5];
    assert_eq!(queue.pop(&mut output), 2);
    assert_eq!(output[..2], [1, 2]);
    assert_eq!(queue.read_size(), 0);
}

#[test]
fn a_full_queue_takes_nothing() {
    let mut queue = LocalQueue::new(2);
    assert_eq!(queue.push(&[1, 2]), 2);
    assert_eq!(queue.push(&[3]), 0);
    assert_eq!(queue.read_size(), 2);
}

#[test]
fn pulling_drains_the_queue() {
    let mut queue = LocalQueue::new(4);
    assert_eq!(dram_pull::pull_all(&mut queue), [0u8; 0]);
    queue.push_all(&[9, 8, 7, 6]);
    assert_eq!(dram_pull::pull_all(&mut queue), [9, 8, 7, 6]);
    assert_eq!(dram_pull::pull_all(&mut queue), [0u8; 0]);
}

#[test]
fn parts_can_be_set_one_by_one() {
    let mut queue = LocalQueue::new(4);
    queue.set_data_mut(1, &[5, 6]);
    queue.set_write_mut(3);
    queue.set_read_mut(1);
    assert_eq!(queue.get_read_mut(), 1);
    assert_eq!(queue.get_write_mut(), 3);
    assert_eq!(queue.get_capacity_mut(), 4);
    let mut cells = [0; 2];
    queue.get_data_mut(1, &mut cells);
    assert_eq!(cells, [5, 6]);
    assert_eq!(dram_pull::pull_all(&mut queue), [5, 6]);
}

#[test]
fn a_pop_can_take_several_steps() {
    let mut queue = LocalQueue::new(4);
    let mut output = [0; 6];
    assert_eq!(queue.pop_step(&mut output, 0), 0);
    queue.push_all(&[1, 2, 3]);
    assert_eq!(queue.pop_step(&mut output, 0), 3);
    assert_eq!(output[..3], [1, 2, 3]);
    assert_eq!(queue.pop_step(&mut output, 3), 3);
    queue.push_all(&[4, 5, 6, 7]);
    assert_eq!(queue.pop_step(&mut output, 3), 6);
    assert_eq!(output, [1, 2, 3, 4, 5, 6]);
    assert_eq!(queue.pop_step(&mut output, 6), 6);
    assert_eq!(dram_pull::pull_all(&mut queue), [7]);
}

#[test]
fn a_push_can_take_several_steps() {
    let mut queue = LocalQueue::new(4);
    queue.push_all(&[1, 2, 3, 4]);
    let input = [5, 6, 7];
    assert_eq!(queue.push_step(&input, 0), 0);
    let mut output = [0; 3];
    queue.pop_all(&mut output);
    assert_eq!(output, [1, 2, 3]);
    assert_eq!(queue.push_step(&input, 0), 3);
    assert_eq!(queue.push_step(&input, 3), 3);
    assert_eq!(dram_pull::pull_all(&mut queue), [4, 5, 6, 7]);
}

#[test]
fn a_push_that_does_not_fit_spoils_unread_bytes() {
    let mut queue = LocalQueue::new(4);
    assert_eq!(queue.push_step(&[1, 2, 3, 4, 5, 6], 0), 4);
    assert_eq!(dram_pull::pull_all(&mut queue), [5, 6, 3, 4]);
}

#[test]
fn bytes_show_when_the_index_moves() {
    let mut queue = LocalQueue::new(4);
    queue.push_all(&[1, 2, 3]);
    queue.set_data(3, &[4]);
    queue.set_data(0, &[]);
    assert_eq!(queue.read_size(), 3);
    queue.set_write(4);
    assert_eq!(dram_pull::pull_all(&mut queue), [1, 2, 3, 4]);
}

#[test]
fn a_pop_reads_all_of_its_output() {
    let mut queue = LocalQueue::new(4);
    queue.set_data(0, &[5, 6, 7, 8]);
    queue.set_write(2);
    let mut output = [0; 5];
    assert_eq!(queue.pop(&mut output), 2);
    assert_eq!(output, [5, 6, 5, 6, 7]);
}
