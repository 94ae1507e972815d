use epub_count::schedule::split_vec;

fn lengths(chunks: &Vec<Vec<u32>>) -> Vec<usize> {
    chunks.iter().map(|c| c.len()).collect()
}

fn tasks(n: u32) -> Vec<u32> {
    (0..n).collect()
}

#[test]
fn split_gives_one_chunk_per_worker() {
    assert_eq!(lengths(&split_vec(tasks(10), 3)), vec![4, 4, 2]);
    assert_eq!(lengths(&split_vec(tasks(10), 1)), vec![10]);
    assert_eq!(lengths(&split_vec(tasks(10), 10)), vec![1; 10]);
    assert_eq!(lengths(&split_vec(tasks(10), 4)), vec![3, 3, 3, 1]);
}

#[test]
fn split_rounds_the_chunk_size_up() {
    assert_eq!(lengths(&split_vec(tasks(7), 2)), vec![4, 3]);
    assert_eq!(lengths(&split_vec(tasks(8), 2)), vec![4, 4]);
    assert_eq!(lengths(&split_vec(tasks(9), 4)), vec![3, 3, 3, 0]);
    assert_eq!(lengths(&split_vec(tasks(5), 4)), vec![2, 2, 1, 0]);
}

#[test]
fn split_leaves_the_last_chunks_empty_when_workers_outnumber_tasks() {
    assert_eq!(split_vec(tasks(2), 4), vec![vec![0], vec![1], vec![], vec![]]);
}

#[test]
fn split_of_nothing_gives_empty_chunks() {
    assert_eq!(split_vec(tasks(0), 3), vec![Vec::<u32>::new(); 3]);
    assert_eq!(split_vec(tasks(0), 0), vec![Vec::<u32>::new()]);
}

#[test]
fn split_for_no_worker_is_split_for_one() {
    assert_eq!(split_vec(tasks(5), 0), vec![tasks(5)]);
    assert_eq!(split_vec(tasks(5), 1), vec![tasks(5)]);
}

#[test]
fn split_keeps_every_task_once_and_in_order() {
    for n in 0..30u32 {
        for workers in 0..35usize {
            let chunks = split_vec(tasks(n), workers);
            assert_eq!(chunks.len(), workers.max(1));
            assert_eq!(chunks.concat(), tasks(n));
        }
    }
}

#[test]
fn split_chunks_are_contiguous_and_full_but_for_the_last() {
    let chunks = split_vec(tasks(11), 4);
    assert_eq!(chunks, vec![vec![0, 1, 2], vec![3, 4, 5], vec![6, 7, 8], vec![9, 10]]);
}

#[test]
fn split_of_ten_tasks_holds_the_same_tasks_for_one_three_and_ten_workers() {
    let names: Vec<String> = (0..10).map(|i| format!("book{}.epub", i)).collect();
    for workers in [1usize, 3, 10] {
        let chunks = split_vec(names.clone(), workers);
        assert_eq!(chunks.len(), workers);
        let mut seen = chunks.concat();
        assert_eq!(seen, names);
        seen.sort();
        seen.dedup();
        assert_eq!(seen.len(), 10);
    }
}

#[test]
fn split_takes_a_worker_count_beyond_any_sum() {
    let chunks = split_vec(tasks(3), 1000);
    assert_eq!(chunks.len(), 1000);
    assert_eq!(chunks.concat(), tasks(3));
    assert!(chunks[3..].iter().all(|c| c.is_empty()));
}
