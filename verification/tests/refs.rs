use gix_blame::Target::{Object, Symbolic};
use gix_blame::{ObjectId, PackedBuffer, PackedRef, Reference, Store, Target};

fn hex_to_id(hex: &str) -> ObjectId {
    ObjectId::from_hex(hex.as_bytes()).expect("valid hex id")
}

fn obj(name: &str, id: ObjectId) -> Reference {
    Reference {
        name: name.as_bytes().to_vec(),
        target: Target::Object(id),
    }
}

fn sym(name: &str, to: &str) -> Reference {
    Reference {
        name: name.as_bytes().to_vec(),
        target: Target::Symbolic(to.as_bytes().to_vec()),
    }
}

fn packed(name: &str, id: ObjectId) -> PackedRef {
    PackedRef {
        name: name.as_bytes().to_vec(),
        id,
    }
}

fn c1() -> ObjectId {
    hex_to_id("134385f6d781b7e97062102c6a483440bfda2a03")
}

fn c2() -> ObjectId {
    hex_to_id("9902e3c3e8f0c569b4ab295ddf473e6de763e1e7")
}

fn empty_store() -> Store {
    Store::empty()
}

/// The loose-only store with the usual branches, tags and symbolic links.
fn store() -> Store {
    let refs = vec![
        obj("refs/d1", c1()),
        obj("refs/heads/A", c1()),
        obj("refs/heads/d1", c1()),
        obj("refs/heads/dt1", c1()),
        obj("refs/heads/main", c1()),
        obj("refs/heads/multi-link-target1", c1()),
        sym("refs/loop-a", "refs/loop-b"),
        sym("refs/loop-b", "refs/loop-a"),
        sym("refs/multi-link", "refs/tags/multi-link-target2"),
        obj("refs/prefix/feature-suffix", c1()),
        obj("refs/prefix/feature/sub/dir/algo", c1()),
        sym("refs/remotes/origin/HEAD", "refs/remotes/origin/main"),
        obj("refs/remotes/origin/main", c1()),
        obj("refs/remotes/origin/multi-link-target3", c1()),
        obj("refs/tags/dt1", c1()),
        sym("refs/tags/multi-link-target2", "refs/remotes/origin/multi-link-target3"),
        obj("refs/tags/t1", c1()),
    ];
    Store::new(refs, None).expect("sorted refs")
}

/// A store whose references live in a packed list only.
fn store_with_packed_refs() -> Store {
    let packed_refs = vec![
        packed("refs/d1", c1()),
        packed("refs/heads/A", c1()),
        packed("refs/heads/d1", c1()),
        packed("refs/heads/dt1", c1()),
        packed("refs/heads/main", c1()),
        packed("refs/heads/multi-link-target1", c1()),
        packed("refs/remotes/origin/main", c1()),
        packed("refs/remotes/origin/multi-link-target3", c1()),
        packed("refs/tags/dt1", c1()),
        packed("refs/tags/multi-link-target2", c1()),
        packed("refs/tags/t1", c1()),
    ];
    let buffer = PackedBuffer::new(packed_refs).expect("sorted packed refs");
    Store::new(Vec::new(), Some(buffer)).expect("sorted refs")
}

/// A store with loose references overlaying a packed list.
fn store_for_overlay() -> Store {
    let loose = vec![
        obj("refs/heads/newer-as-loose", c2()),
        sym("refs/remotes/origin/HEAD", "refs/remotes/origin/main"),
    ];
    let packed_refs = vec![
        packed("refs/heads/A", c1()),
        packed("refs/heads/main", c1()),
        packed("refs/heads/newer-as-loose", c1()),
        packed("refs/prefix/feature-suffix", c1()),
        packed("refs/prefix/feature/sub/dir/algo", c1()),
        packed("refs/remotes/origin/main", c1()),
        packed(
            "refs/tags/tag-object",
            hex_to_id("b3109a7e51fc593f85b145a76c70ddd1d133fafd"),
        ),
    ];
    let buffer = PackedBuffer::new(packed_refs).expect("sorted packed refs");
    Store::new(loose, Some(buffer)).expect("sorted refs")
}

/// A store whose loose references include root-level pseudo references.
fn store_with_pseudo_refs() -> Store {
    let refs = vec![
        obj("FETCH_HEAD", c1()),
        sym("HEAD", "refs/heads/main"),
        obj("JIRI_HEAD", c1()),
        obj("refs/heads/main", c1()),
    ];
    Store::new(refs, None).expect("sorted refs")
}

fn names(refs: &[Reference]) -> Vec<String> {
    refs.iter()
        .map(|r| String::from_utf8(r.name.clone()).unwrap())
        .collect()
}

#[test]
fn missing_refs_dir_yields_empty_iteration() {
    let store = empty_store();
    assert_eq!(store.iter().all().len(), 0);
    assert_eq!(store.loose_iter().len(), 0);
}

#[test]
fn no_packed_available_thus_no_iteration_possible() {
    let store_without_packed = store();
    assert!(
        store_without_packed.open_packed_buffer().is_none(),
        "there is no packed refs in this store"
    );
}

#[test]
fn packed_file_iter() {
    let store = store_with_packed_refs();
    assert_eq!(
        store
            .open_packed_buffer()
            .expect("pack available")
            .iter()
            .len(),
        11
    );
}

#[test]
fn pseudo_refs_iter() {
    let store = store_with_pseudo_refs();

    let actual: Vec<String> = store
        .iter_pseudo()
        .iter()
        .map(|r| String::from_utf8(r.name.clone()).unwrap())
        .collect();

    assert_eq!(actual, ["FETCH_HEAD", "HEAD", "JIRI_HEAD"]);
}

#[test]
fn overlay_iter() {
    let store = store_for_overlay();
    let ref_names: Vec<(Vec<u8>, Target)> = store
        .iter()
        .all()
        .into_iter()
        .map(|r| (r.name, r.target))
        .collect();
    let c1 = c1();
    let c2 = c2();
    assert_eq!(
        ref_names,
        vec![
            (b"refs/heads/A".to_vec(), Object(c1)),
            (b"refs/heads/main".to_vec(), Object(c1)),
            (b"refs/heads/newer-as-loose".to_vec(), Object(c2)),
            (b"refs/prefix/feature-suffix".to_vec(), Object(c1)),
            (b"refs/prefix/feature/sub/dir/algo".to_vec(), Object(c1)),
            (
                b"refs/remotes/origin/HEAD".to_vec(),
                Symbolic(b"refs/remotes/origin/main".to_vec()),
            ),
            (b"refs/remotes/origin/main".to_vec(), Object(c1)),
            (
                b"refs/tags/tag-object".to_vec(),
                Object(hex_to_id("b3109a7e51fc593f85b145a76c70ddd1d133fafd")),
            )
        ]
    );
}

#[test]
fn overlay_prefixed_iter() {
    let store = store_for_overlay();
    let ref_names: Vec<(Vec<u8>, Target)> = store
        .iter()
        .prefixed(&b"refs/heads/".to_vec())
        .into_iter()
        .map(|r| (r.name, r.target))
        .collect();
    let c1 = c1();
    let c2 = c2();
    assert_eq!(
        ref_names,
        vec![
            (b"refs/heads/A".to_vec(), Object(c1)),
            (b"refs/heads/main".to_vec(), Object(c1)),
            (b"refs/heads/newer-as-loose".to_vec(), Object(c2)),
        ]
    );
}

#[test]
fn overlay_partial_prefix_iter() {
    let store = store_for_overlay();
    let ref_names: Vec<(Vec<u8>, Target)> = store
        .iter()
        .prefixed(&b"refs/heads/m".to_vec()) // 'm' is partial
        .into_iter()
        .map(|r| (r.name, r.target))
        .collect();
    let c1 = c1();
    assert_eq!(ref_names, vec![(b"refs/heads/main".to_vec(), Object(c1))]);
}

/// The prefix `refs/d` should match `refs/d1` but not `refs/heads/d1`.
#[test]
fn overlay_partial_prefix_iter_reproduce_1934() {
    let store = store();
    let c1 = c1();

    let ref_names: Vec<(Vec<u8>, Target)> = store
        .iter()
        .prefixed(&b"refs/d".to_vec())
        .into_iter()
        .map(|r| (r.name, r.target))
        .collect();
    assert_eq!(
        ref_names,
        vec![(b"refs/d1".to_vec(), Object(c1))],
        "Should not match `refs/heads/d1`"
    );
}

#[test]
fn overlay_partial_prefix_iter_when_prefix_is_dir() {
    // Test 'refs/prefix/' with and without trailing slash.
    let store = store_for_overlay();
    assert_eq!(store.is_pristine(&b"refs/heads/main".to_vec()), Some(false));
    let c1 = c1();

    let ref_names: Vec<(Vec<u8>, Target)> = store
        .iter()
        .prefixed(&b"refs/prefix/feature".to_vec())
        .into_iter()
        .map(|r| (r.name, r.target))
        .collect();
    assert_eq!(
        ref_names,
        vec![
            (b"refs/prefix/feature-suffix".to_vec(), Object(c1)),
            (b"refs/prefix/feature/sub/dir/algo".to_vec(), Object(c1)),
        ]
    );

    let ref_names: Vec<(Vec<u8>, Target)> = store
        .iter()
        .prefixed(&b"refs/prefix/feature/".to_vec())
        .into_iter()
        .map(|r| (r.name, r.target))
        .collect();
    assert_eq!(
        ref_names,
        vec![(b"refs/prefix/feature/sub/dir/algo".to_vec(), Object(c1))]
    );
}

#[test]
fn loose_iter_with_prefix() {
    let actual = names(&store().loose_iter_prefixed(&b"refs/heads/".to_vec()));

    assert_eq!(
        actual,
        vec![
            "refs/heads/A",
            "refs/heads/d1",
            "refs/heads/dt1",
            "refs/heads/main",
            "refs/heads/multi-link-target1",
        ],
        "all paths are as expected"
    );
}

#[test]
fn loose_iter_with_partial_prefix_dir() {
    let actual = names(&store().loose_iter_prefixed(&b"refs/heads".to_vec()));

    assert_eq!(
        actual,
        vec![
            "refs/heads/A",
            "refs/heads/d1",
            "refs/heads/dt1",
            "refs/heads/main",
            "refs/heads/multi-link-target1",
        ],
        "all paths are as expected"
    );
}

#[test]
fn loose_iter_with_partial_prefix() {
    let actual = names(&store().loose_iter_prefixed(&b"refs/heads/d".to_vec()));

    assert_eq!(
        actual,
        vec!["refs/heads/d1", "refs/heads/dt1"],
        "all paths are as expected"
    );
}

#[test]
fn unsorted_references_are_rejected() {
    let refs = vec![obj("refs/heads/main", c1()), obj("refs/heads/A", c1())];
    assert_eq!(
        Store::new(refs, None).unwrap_err(),
        gix_blame::Error::UnsortedReferences
    );
    let packed_refs = vec![packed("refs/tags/b", c1()), packed("refs/tags/a", c1())];
    assert_eq!(
        PackedBuffer::new(packed_refs).unwrap_err(),
        gix_blame::Error::UnsortedReferences
    );
}

#[test]
fn packed_iter_prefixed_filters() {
    let store = store_with_packed_refs();
    let buffer = store.open_packed_buffer().expect("pack available");
    let names: Vec<Vec<u8>> = buffer
        .iter_prefixed(&b"refs/tags/".to_vec())
        .into_iter()
        .map(|r| r.name)
        .collect();
    assert_eq!(
        names,
        vec![
            b"refs/tags/dt1".to_vec(),
            b"refs/tags/multi-link-target2".to_vec(),
            b"refs/tags/t1".to_vec(),
        ]
    );
}
