use gix_blame::{
    blame_file, BlameRanges, Commit, ObjectId, Options, Outcome, Repository, TreeEntry,
};

fn hex_to_id(hex: &str) -> ObjectId {
    ObjectId::from_hex(hex.as_bytes()).expect("valid hex id")
}

fn id_of(letter: char) -> ObjectId {
    let hex: String = std::iter::repeat(letter).take(40).collect();
    hex_to_id(&hex)
}

fn commit(id: ObjectId, parents: Vec<usize>, seconds: i64, tree: Vec<(&str, usize)>) -> Commit {
    Commit {
        id,
        parents,
        seconds,
        tree: tree
            .into_iter()
            .map(|(path, blob)| TreeEntry {
                path: path.as_bytes().to_vec(),
                blob,
            })
            .collect(),
    }
}

fn entry_triples(outcome: &Outcome) -> Vec<(u32, u32, u32, ObjectId)> {
    outcome
        .entries
        .iter()
        .map(|e| {
            (
                e.start_in_blamed_file,
                e.start_in_source_file,
                e.len,
                e.commit_id,
            )
        })
        .collect()
}

/// The four-line file introduced once and never modified again.
fn single_commit_repo() -> (Repository, ObjectId) {
    let id = id_of('a');
    let blob = b"one\ntwo\nthree\nfour\n".to_vec();
    let repo = Repository::new(
        vec![commit(id, vec![], 100, vec![("simple.txt", 0)])],
        vec![blob],
    )
    .expect("valid repository");
    (repo, id)
}

#[test]
fn single_commit_whole_file() {
    let (repo, id) = single_commit_repo();
    let outcome = blame_file(
        &repo,
        &id,
        &b"simple.txt".to_vec(),
        &Options::new(),
    )
    .expect("blame succeeds");
    assert_eq!(entry_triples(&outcome), vec![(0, 0, 4, id)]);
    assert_eq!(outcome.blob, b"one\ntwo\nthree\nfour\n".to_vec());
    assert_eq!(outcome.statistics.commits_traversed, 1);
}

#[test]
fn changed_line_is_attributed_to_the_later_commit() {
    let new_id = id_of('b');
    let old_id = id_of('a');
    let v1 = b"one\ntwo\nthree\nfour\n".to_vec();
    let v2 = b"one\nTWO\nthree\nfour\n".to_vec();
    let repo = Repository::new(
        vec![
            commit(new_id, vec![1], 200, vec![("simple.txt", 1)]),
            commit(old_id, vec![], 100, vec![("simple.txt", 0)]),
        ],
        vec![v1, v2],
    )
    .expect("valid repository");
    let outcome = blame_file(&repo, &new_id, &b"simple.txt".to_vec(), &Options::new())
        .expect("blame succeeds");
    assert_eq!(
        entry_triples(&outcome),
        vec![
            (0, 0, 1, old_id),
            (1, 1, 1, new_id),
            (2, 2, 2, old_id),
        ]
    );
}

#[test]
fn added_lines_are_attributed_to_the_adding_commit() {
    let new_id = id_of('b');
    let old_id = id_of('a');
    let v1 = b"one\nfour\n".to_vec();
    let v2 = b"one\ntwo\nthree\nfour\n".to_vec();
    let repo = Repository::new(
        vec![
            commit(new_id, vec![1], 200, vec![("simple.txt", 1)]),
            commit(old_id, vec![], 100, vec![("simple.txt", 0)]),
        ],
        vec![v1, v2],
    )
    .expect("valid repository");
    let outcome = blame_file(&repo, &new_id, &b"simple.txt".to_vec(), &Options::new())
        .expect("blame succeeds");
    assert_eq!(
        entry_triples(&outcome),
        vec![
            (0, 0, 1, old_id),
            (1, 1, 2, new_id),
            (3, 1, 1, old_id),
        ]
    );
}

#[test]
fn ignored_commit_never_appears_in_the_outcome() {
    // a root A, a formatting commit in between, and the blamed head
    let head_id = id_of('c');
    let mid_id = id_of('b');
    let root_id = id_of('a');
    let v_root = b"one\ntwo\nthree\nfour\n".to_vec();
    let v_mid = b"one\nTWO\nthree\nfour\n".to_vec();
    let repo = Repository::new(
        vec![
            commit(head_id, vec![1], 300, vec![("simple.txt", 1)]),
            commit(mid_id, vec![2], 200, vec![("simple.txt", 1)]),
            commit(root_id, vec![], 100, vec![("simple.txt", 0)]),
        ],
        vec![v_root, v_mid.clone()],
    )
    .expect("valid repository");

    // without ignoring, the middle commit owns its change
    let plain = blame_file(&repo, &head_id, &b"simple.txt".to_vec(), &Options::new())
        .expect("blame succeeds");
    assert!(plain.entries.iter().any(|e| e.commit_id == mid_id));

    // ignoring it re-attributes the change to the root
    let options = Options::new().with_ignored_revisions(vec![mid_id]);
    let ignored = blame_file(&repo, &head_id, &b"simple.txt".to_vec(), &options)
        .expect("blame succeeds");
    for e in &ignored.entries {
        assert_ne!(e.commit_id, mid_id, "ignored commit must not appear");
        assert_eq!(e.commit_id, root_id);
    }
    let total: u32 = ignored.entries.iter().map(|e| e.len).sum();
    assert_eq!(total, 4);
}

#[test]
fn rename_is_followed_and_recorded() {
    let head_id = id_of('b');
    let root_id = id_of('a');
    let content = b"alpha\nbeta\n".to_vec();
    let repo = Repository::new(
        vec![
            commit(head_id, vec![1], 200, vec![("new.txt", 0)]),
            commit(root_id, vec![], 100, vec![("old.txt", 0)]),
        ],
        vec![content],
    )
    .expect("valid repository");
    let outcome = blame_file(&repo, &head_id, &b"new.txt".to_vec(), &Options::new())
        .expect("blame succeeds");
    assert_eq!(outcome.entries.len(), 1);
    let entry = &outcome.entries[0];
    assert_eq!(entry.commit_id, root_id);
    assert_eq!(
        entry.source_file_name,
        Some(b"old.txt".to_vec()),
        "lines older than the rename carry the original path"
    );
}

#[test]
fn rename_tracking_can_be_disabled() {
    let head_id = id_of('b');
    let root_id = id_of('a');
    let content = b"alpha\nbeta\n".to_vec();
    let repo = Repository::new(
        vec![
            commit(head_id, vec![1], 200, vec![("new.txt", 0)]),
            commit(root_id, vec![], 100, vec![("old.txt", 0)]),
        ],
        vec![content],
    )
    .expect("valid repository");
    let mut options = Options::new();
    options.rewrites = false;
    let outcome = blame_file(&repo, &head_id, &b"new.txt".to_vec(), &options)
        .expect("blame succeeds");
    assert_eq!(outcome.entries.len(), 1);
    assert_eq!(
        outcome.entries[0].commit_id, head_id,
        "without rename tracking the file counts as added at the head"
    );
}

#[test]
fn range_blame_covers_only_the_requested_lines() {
    let (repo, id) = single_commit_repo();
    let mut options = Options::new();
    options.range = BlameRanges::from_one_based_inclusive_range(1, 2).expect("valid range");
    let outcome = blame_file(&repo, &id, &b"simple.txt".to_vec(), &options)
        .expect("blame succeeds");
    assert_eq!(entry_triples(&outcome), vec![(0, 0, 2, id)]);
}

#[test]
fn blame_is_idempotent() {
    let new_id = id_of('b');
    let old_id = id_of('a');
    let v1 = b"one\ntwo\nthree\nfour\n".to_vec();
    let v2 = b"one\nTWO\nthree\nfour\nfive\n".to_vec();
    let repo = Repository::new(
        vec![
            commit(new_id, vec![1], 200, vec![("simple.txt", 1)]),
            commit(old_id, vec![], 100, vec![("simple.txt", 0)]),
        ],
        vec![v1, v2],
    )
    .expect("valid repository");
    let first = blame_file(&repo, &new_id, &b"simple.txt".to_vec(), &Options::new())
        .expect("blame succeeds");
    let second = blame_file(&repo, &new_id, &b"simple.txt".to_vec(), &Options::new())
        .expect("blame succeeds");
    assert_eq!(first, second);
}

#[test]
fn merge_commit_attributes_lines_to_both_sides() {
    // a merge whose parents changed different lines of the root's file
    let merge_id = id_of('d');
    let left_id = id_of('b');
    let right_id = id_of('c');
    let root_id = id_of('a');
    let v_root = b"one\ntwo\nthree\nfour\n".to_vec();
    let v_left = b"ONE\ntwo\nthree\nfour\n".to_vec();
    let v_right = b"one\ntwo\nthree\nFOUR\n".to_vec();
    let v_merge = b"ONE\ntwo\nthree\nFOUR\n".to_vec();
    let repo = Repository::new(
        vec![
            commit(merge_id, vec![1, 2], 400, vec![("simple.txt", 3)]),
            commit(left_id, vec![3], 200, vec![("simple.txt", 1)]),
            commit(right_id, vec![3], 300, vec![("simple.txt", 2)]),
            commit(root_id, vec![], 100, vec![("simple.txt", 0)]),
        ],
        vec![v_root, v_left, v_right, v_merge],
    )
    .expect("valid repository");
    let outcome = blame_file(&repo, &merge_id, &b"simple.txt".to_vec(), &Options::new())
        .expect("blame succeeds");
    assert_eq!(
        entry_triples(&outcome),
        vec![
            (0, 0, 1, left_id),
            (1, 1, 2, root_id),
            (3, 3, 1, right_id),
        ]
    );
}

#[test]
fn since_cutoff_stops_the_walk() {
    let new_id = id_of('b');
    let old_id = id_of('a');
    let v1 = b"one\ntwo\n".to_vec();
    let v2 = b"one\nTWO\n".to_vec();
    let repo = Repository::new(
        vec![
            commit(new_id, vec![1], 200, vec![("simple.txt", 1)]),
            commit(old_id, vec![], 100, vec![("simple.txt", 0)]),
        ],
        vec![v1, v2],
    )
    .expect("valid repository");
    let mut options = Options::new();
    options.since = Some(150);
    let outcome = blame_file(&repo, &new_id, &b"simple.txt".to_vec(), &options)
        .expect("blame succeeds");
    // lines still pending at the cutoff settle on the boundary commit
    assert_eq!(
        entry_triples(&outcome),
        vec![(0, 0, 1, old_id), (1, 1, 1, new_id)]
    );
}

#[test]
fn missing_commit_is_reported() {
    let (repo, _) = single_commit_repo();
    let unknown = id_of('f');
    assert_eq!(
        blame_file(&repo, &unknown, &b"simple.txt".to_vec(), &Options::new()).unwrap_err(),
        gix_blame::Error::CommitMissing
    );
}

#[test]
fn missing_file_is_reported() {
    let (repo, id) = single_commit_repo();
    assert_eq!(
        blame_file(&repo, &id, &b"other.txt".to_vec(), &Options::new()).unwrap_err(),
        gix_blame::Error::FileMissing
    );
}

#[test]
fn out_of_bounds_range_is_reported() {
    let (repo, id) = single_commit_repo();
    let mut options = Options::new();
    options.range = BlameRanges::from_one_based_inclusive_range(1, 10).expect("valid range");
    assert_eq!(
        blame_file(&repo, &id, &b"simple.txt".to_vec(), &options).unwrap_err(),
        gix_blame::Error::InvalidLineRange
    );
}

#[test]
fn unordered_commit_graph_is_rejected() {
    let a = commit(id_of('a'), vec![0], 100, vec![]);
    assert_eq!(
        Repository::new(vec![a], vec![]).unwrap_err(),
        gix_blame::Error::UnorderedCommitGraph
    );
}

#[test]
fn duplicate_commit_ids_are_rejected() {
    let a = commit(id_of('a'), vec![], 100, vec![]);
    let b = commit(id_of('a'), vec![], 200, vec![]);
    assert_eq!(
        Repository::new(vec![b, a], vec![]).unwrap_err(),
        gix_blame::Error::DuplicateCommitId
    );
}

#[test]
fn unknown_blob_is_rejected() {
    let a = commit(id_of('a'), vec![], 100, vec![("simple.txt", 3)]);
    assert_eq!(
        Repository::new(vec![a], vec![b"x\n".to_vec()]).unwrap_err(),
        gix_blame::Error::UnknownBlob
    );
}

#[test]
fn myers_algorithm_agrees_on_a_simple_change() {
    let new_id = id_of('b');
    let old_id = id_of('a');
    let v1 = b"one\ntwo\nthree\nfour\n".to_vec();
    let v2 = b"one\nTWO\nthree\nfour\n".to_vec();
    let repo = Repository::new(
        vec![
            commit(new_id, vec![1], 200, vec![("simple.txt", 1)]),
            commit(old_id, vec![], 100, vec![("simple.txt", 0)]),
        ],
        vec![v1, v2],
    )
    .expect("valid repository");
    let mut options = Options::new();
    options.diff_algorithm = gix_blame::Algorithm::Myers;
    let outcome = blame_file(&repo, &new_id, &b"simple.txt".to_vec(), &options)
        .expect("blame succeeds");
    assert_eq!(
        entry_triples(&outcome),
        vec![
            (0, 0, 1, old_id),
            (1, 1, 1, new_id),
            (2, 2, 2, old_id),
        ]
    );
}

#[test]
fn consecutive_ignored_commits_are_walked_through() {
    // two formatting commits in a row, both ignored
    let head_id = id_of('d');
    let mid2_id = id_of('c');
    let mid1_id = id_of('b');
    let root_id = id_of('a');
    let v_root = b"one\ntwo\n".to_vec();
    let v_mid1 = b"one\nTWO\n".to_vec();
    let v_mid2 = b"ONE\nTWO\n".to_vec();
    let repo = Repository::new(
        vec![
            commit(head_id, vec![1], 400, vec![("simple.txt", 2)]),
            commit(mid2_id, vec![2], 300, vec![("simple.txt", 2)]),
            commit(mid1_id, vec![3], 200, vec![("simple.txt", 1)]),
            commit(root_id, vec![], 100, vec![("simple.txt", 0)]),
        ],
        vec![v_root, v_mid1, v_mid2],
    )
    .expect("valid repository");
    let options = Options::new().with_ignored_revisions(vec![mid1_id, mid2_id]);
    let outcome = blame_file(&repo, &head_id, &b"simple.txt".to_vec(), &options)
        .expect("blame succeeds");
    for e in &outcome.entries {
        assert_ne!(e.commit_id, mid1_id);
        assert_ne!(e.commit_id, mid2_id);
        assert_eq!(e.commit_id, root_id);
    }
    let total: u32 = outcome.entries.iter().map(|e| e.len).sum();
    assert_eq!(total, 2);
}

#[test]
fn empty_file_yields_no_entries() {
    let id = id_of('a');
    let repo = Repository::new(
        vec![commit(id, vec![], 100, vec![("empty.txt", 0)])],
        vec![Vec::new()],
    )
    .expect("valid repository");
    let outcome = blame_file(&repo, &id, &b"empty.txt".to_vec(), &Options::new())
        .expect("blame succeeds");
    assert_eq!(outcome.entries.len(), 0);
    assert_eq!(outcome.blob.len(), 0);
}

#[test]
fn unterminated_last_line_counts_as_a_line() {
    let id = id_of('a');
    let repo = Repository::new(
        vec![commit(id, vec![], 100, vec![("simple.txt", 0)])],
        vec![b"one\ntwo".to_vec()],
    )
    .expect("valid repository");
    let outcome = blame_file(&repo, &id, &b"simple.txt".to_vec(), &Options::new())
        .expect("blame succeeds");
    assert_eq!(entry_triples(&outcome), vec![(0, 0, 2, id)]);
}

#[test]
fn multiple_ranges_blame_each_requested_span() {
    let (repo, id) = single_commit_repo();
    let mut options = Options::new();
    options.range =
        BlameRanges::from_one_based_inclusive_ranges(&vec![(1, 2), (4, 4)]).expect("valid ranges");
    let outcome = blame_file(&repo, &id, &b"simple.txt".to_vec(), &options)
        .expect("blame succeeds");
    assert_eq!(
        entry_triples(&outcome),
        vec![(0, 0, 2, id), (3, 3, 1, id)]
    );
}

#[test]
fn statistics_count_the_walk() {
    let new_id = id_of('b');
    let old_id = id_of('a');
    let v1 = b"one\ntwo\n".to_vec();
    let v2 = b"one\nTWO\n".to_vec();
    let repo = Repository::new(
        vec![
            commit(new_id, vec![1], 200, vec![("simple.txt", 1)]),
            commit(old_id, vec![], 100, vec![("simple.txt", 0)]),
        ],
        vec![v1, v2],
    )
    .expect("valid repository");
    let outcome = blame_file(&repo, &new_id, &b"simple.txt".to_vec(), &Options::new())
        .expect("blame succeeds");
    assert_eq!(outcome.statistics.commits_traversed, 2);
    assert_eq!(outcome.statistics.blobs_diffed, 1);
    assert_eq!(outcome.statistics.trees_decoded, 2);
}
