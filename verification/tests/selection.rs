use largest_files::{FileInfo, Selector};

fn record(name: &str, size: u64) -> FileInfo {
    FileInfo::new(name.to_string(), size, format!("/data/{}", name))
}

fn sizes(files: &Vec<FileInfo>) -> Vec<u64> {
    let mut out = Vec::new();
    for file in files {
        out.push(file.size);
    }
    out
}

fn names(files: &Vec<FileInfo>) -> Vec<String> {
    let mut out = Vec::new();
    for file in files {
        out.push(file.name.clone());
    }
    out
}

fn select(capacity: usize, offered: &[u64]) -> Vec<FileInfo> {
    let mut selector = Selector::new(capacity);
    for (i, size) in offered.iter().enumerate() {
        selector.offer(record(&format!("f{}", i), *size));
    }
    selector.finalize()
}

/// The sizes that a selection must give: the largest ones, largest first.
fn expected(capacity: usize, offered: &[u64]) -> Vec<u64> {
    let mut all = offered.to_vec();
    all.sort();
    all.reverse();
    all.truncate(capacity);
    all
}

/// A fixed sequence of numbers that looks scattered.
fn scattered(count: usize, modulus: u64) -> Vec<u64> {
    let mut state: u64 = 0x9E37_79B9_7F4A_7C15;
    let mut out = Vec::new();
    for _ in 0..count {
        state = state.wrapping_mul(6364136223846793005).wrapping_add(1442695040888963407);
        out.push((state >> 33) % modulus);
    }
    out
}

#[test]
fn new_record_holds_what_it_was_given() {
    let file = FileInfo::new("notes.txt".to_string(), 42, "/home/me/notes.txt".to_string());
    assert_eq!(file.name, "notes.txt");
    assert_eq!(file.size, 42);
    assert_eq!(file.path, "/home/me/notes.txt");
}

#[test]
fn new_record_may_be_empty_file() {
    let file = FileInfo::new("empty".to_string(), 0, "/empty".to_string());
    assert_eq!(file.size, 0);
}

#[test]
fn keeps_the_three_largest_of_five() {
    let mut selector = Selector::new(3);
    for (name, size) in [("a", 5), ("b", 100), ("c", 1), ("d", 999), ("e", 50)] {
        selector.offer(record(name, size));
    }
    let files = selector.finalize();
    assert_eq!(sizes(&files), vec![999, 100, 50]);
    assert_eq!(names(&files), vec!["d", "b", "e"]);
    assert_eq!(files[0].path, "/data/d");
}

#[test]
fn new_selector_is_empty() {
    let selector = Selector::new(4);
    assert_eq!(selector.capacity(), 4);
    assert_eq!(selector.len(), 0);
    assert!(selector.peek_min().is_none());
}

#[test]
fn nothing_offered_gives_nothing() {
    let files = Selector::new(10).finalize();
    assert!(files.is_empty());
}

#[test]
fn capacity_above_the_count_returns_every_file_sorted() {
    let files = select(20, &[5, 100, 1, 999, 50]);
    assert_eq!(sizes(&files), vec![999, 100, 50, 5, 1]);
}

#[test]
fn capacity_equal_to_the_count_returns_every_file_sorted() {
    let files = select(5, &[5, 100, 1, 999, 50]);
    assert_eq!(sizes(&files), vec![999, 100, 50, 5, 1]);
}

#[test]
fn capacity_one_keeps_the_largest() {
    let files = select(1, &[5, 100, 1, 999, 50]);
    assert_eq!(sizes(&files), vec![999]);
    assert_eq!(files[0].name, "f3");
}

#[test]
fn count_is_the_smaller_of_capacity_and_offers() {
    for capacity in 1..8 {
        for offers in 0..12 {
            let offered = scattered(offers, 1000);
            let files = select(capacity, &offered);
            assert_eq!(files.len(), capacity.min(offers));
        }
    }
}

#[test]
fn len_follows_the_offers_up_to_the_capacity() {
    let mut selector = Selector::new(3);
    for (i, size) in [7u64, 7, 9, 1, 30].iter().enumerate() {
        selector.offer(record("x", *size));
        assert_eq!(selector.len(), (i + 1).min(3));
        assert_eq!(selector.capacity(), 3);
    }
}

#[test]
fn result_never_increases() {
    let offered = scattered(500, 10_000);
    let files = select(64, &offered);
    for i in 1..files.len() {
        assert!(files[i - 1].size >= files[i].size);
    }
}

#[test]
fn result_is_the_largest_of_what_was_offered() {
    for capacity in [1usize, 2, 3, 7, 16, 100, 1000] {
        for modulus in [3u64, 50, 1_000_000] {
            let offered = scattered(300, modulus);
            let files = select(capacity, &offered);
            assert_eq!(sizes(&files), expected(capacity, &offered));
        }
    }
}

#[test]
fn result_holds_records_that_were_offered() {
    let offered = scattered(200, 1_000_000);
    let files = select(10, &offered);
    for file in &files {
        let index: usize = file.name[1..].parse().unwrap();
        assert_eq!(offered[index], file.size);
        assert_eq!(file.path, format!("/data/{}", file.name));
    }
    let mut seen = names(&files);
    seen.sort();
    seen.dedup();
    assert_eq!(seen.len(), files.len());
}

#[test]
fn ascending_offers() {
    let offered: Vec<u64> = (1..=100).collect();
    assert_eq!(sizes(&select(5, &offered)), vec![100, 99, 98, 97, 96]);
}

#[test]
fn descending_offers() {
    let offered: Vec<u64> = (1..=100).rev().collect();
    assert_eq!(sizes(&select(5, &offered)), vec![100, 99, 98, 97, 96]);
}

#[test]
fn peek_min_is_the_smallest_kept() {
    let mut selector = Selector::new(3);
    selector.offer(record("a", 40));
    assert_eq!(selector.peek_min().unwrap().size, 40);
    selector.offer(record("b", 10));
    assert_eq!(selector.peek_min().unwrap().name, "b");
    selector.offer(record("c", 25));
    assert_eq!(selector.peek_min().unwrap().size, 10);
    selector.offer(record("d", 30));
    assert_eq!(selector.peek_min().unwrap().size, 25);
    selector.offer(record("e", 5));
    assert_eq!(selector.peek_min().unwrap().size, 25);
    assert_eq!(selector.len(), 3);
}

#[test]
fn full_selector_replaces_its_smallest_by_a_larger_record() {
    let mut selector = Selector::new(2);
    selector.offer(record("a", 10));
    selector.offer(record("b", 20));
    selector.offer(record("c", 11));
    let files = selector.finalize();
    assert_eq!(names(&files), vec!["b", "c"]);
}

#[test]
fn full_selector_drops_a_smaller_record() {
    let mut selector = Selector::new(2);
    selector.offer(record("a", 10));
    selector.offer(record("b", 20));
    selector.offer(record("c", 9));
    let files = selector.finalize();
    assert_eq!(names(&files), vec!["b", "a"]);
}

#[test]
fn full_selector_keeps_the_record_it_has_on_a_tie() {
    let mut selector = Selector::new(2);
    selector.offer(record("first", 10));
    selector.offer(record("big", 20));
    selector.offer(record("late", 10));
    assert_eq!(selector.peek_min().unwrap().name, "first");
    let files = selector.finalize();
    assert_eq!(names(&files), vec!["big", "first"]);
}

#[test]
fn equal_sizes_fill_the_capacity() {
    let files = select(3, &[7, 7, 7, 7, 7]);
    assert_eq!(sizes(&files), vec![7, 7, 7]);
    let mut kept = names(&files);
    kept.sort();
    assert_eq!(kept, vec!["f0", "f1", "f2"]);
}

#[test]
fn zero_length_files_are_kept_like_others() {
    let files = select(3, &[0, 0]);
    assert_eq!(sizes(&files), vec![0, 0]);
}

#[test]
fn largest_sizes_are_kept() {
    let files = select(2, &[u64::MAX, 0, u64::MAX - 1, 1]);
    assert_eq!(sizes(&files), vec![u64::MAX, u64::MAX - 1]);
}
