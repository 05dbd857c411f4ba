use scan_scheduler::partition::{chunk_total, next_chunk, partition};

fn sizes(len: usize, quota: usize) -> Vec<usize> {
    let jobs: Vec<usize> = (0..len).collect();
    partition(&jobs, quota).iter().map(|c| c.len()).collect()
}

#[test]
fn ten_jobs_under_quota_four_make_chunks_of_four_four_two() {
    assert_eq!(sizes(10, 4), vec![4, 4, 2]);
    assert_eq!(chunk_total(10, 4), 3);
}

#[test]
fn quota_that_divides_the_list_leaves_a_full_last_chunk() {
    assert_eq!(sizes(8, 4), vec![4, 4]);
    assert_eq!(chunk_total(8, 4), 2);
}

#[test]
fn list_within_quota_is_one_chunk() {
    assert_eq!(sizes(3, 4), vec![3]);
    assert_eq!(sizes(4, 4), vec![4]);
    assert_eq!(chunk_total(3, 1500), 1);
}

#[test]
fn zero_quota_or_empty_list_has_no_chunk() {
    assert_eq!(sizes(5, 0), Vec::<usize>::new());
    assert_eq!(sizes(0, 3), Vec::<usize>::new());
    assert_eq!(chunk_total(5, 0), 0);
    assert_eq!(chunk_total(0, 3), 0);
    assert_eq!(next_chunk(5, 0, 0), None);
    assert_eq!(next_chunk(0, 3, 0), None);
}

#[test]
fn chunks_put_end_to_end_are_the_list() {
    let jobs: Vec<u32> = (0..23).collect();
    for quota in 1..30 {
        let chunks = partition(&jobs, quota);
        let joined: Vec<u32> = chunks.iter().flat_map(|c| c.iter().copied()).collect();
        assert_eq!(joined, jobs);
        assert_eq!(chunks.len(), (jobs.len() + quota - 1) / quota);
    }
}

#[test]
fn partitioning_twice_gives_the_same_chunks() {
    let jobs: Vec<u32> = (0..17).collect();
    assert_eq!(partition(&jobs, 5), partition(&jobs, 5));
}

#[test]
fn next_chunk_walks_the_chunks() {
    assert_eq!(next_chunk(10, 4, 0), Some((0, 4)));
    assert_eq!(next_chunk(10, 4, 4), Some((4, 8)));
    assert_eq!(next_chunk(10, 4, 8), Some((8, 10)));
    assert_eq!(next_chunk(10, 4, 10), None);
}
