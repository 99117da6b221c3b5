use webcrane::packages::{
    EndOfTransfer, FileGroup, FilePackage, FileType, GroupedFiles, HashPackage, RequestedFiles,
    StartOfFile, StartOfFileTransfer,
};

#[test]
fn hash_package_new_keeps_records() {
    let pkg = HashPackage::new(vec!["a".to_string()], vec![vec![1, 2]]);
    assert_eq!(pkg.file_paths, vec!["a".to_string()]);
    assert_eq!(pkg.file_hashes, vec![vec![1u8, 2]]);
}

#[test]
fn add_record_appends_path_and_hash() {
    let mut pkg = HashPackage::new(vec![], vec![]);
    pkg.add_record("x/y".to_string(), vec![9]);
    pkg.add_record("z".to_string(), vec![8, 7]);
    assert_eq!(pkg.file_paths, vec!["x/y".to_string(), "z".to_string()]);
    assert_eq!(pkg.file_hashes, vec![vec![9u8], vec![8, 7]]);
}

#[test]
fn constructors_keep_fields() {
    let r = RequestedFiles::new(vec!["n".to_string()], vec!["u".to_string()]);
    assert_eq!(r.new_files, vec!["n".to_string()]);
    assert_eq!(r.files_to_update, vec!["u".to_string()]);

    let f = FilePackage::new("p".to_string(), FileType::Move, vec![1, 2, 3]);
    assert_eq!(f.path, "p");
    assert_eq!(f.file_type, FileType::Move);
    assert_eq!(f.content, vec![1, 2, 3]);

    let g = GroupedFiles::new(
        vec!["a".to_string()],
        vec!["b".to_string()],
        vec![("c".to_string(), "d".to_string())],
        vec!["e".to_string()],
    );
    assert_eq!(g.new_files, vec!["a".to_string()]);
    assert_eq!(g.files_to_update, vec!["b".to_string()]);
    assert_eq!(g.files_to_move, vec![("c".to_string(), "d".to_string())]);
    assert_eq!(g.files_to_delete, vec!["e".to_string()]);

    let s = StartOfFileTransfer::new(3, 99);
    assert_eq!((s.num_files, s.total_size), (3, 99));
    let h = StartOfFile::new("q".to_string(), FileGroup::Update, 4);
    assert_eq!(h.path, "q");
    assert_eq!(h.file_group, FileGroup::Update);
    assert_eq!(h.num_chunks, 4);
    assert_eq!(EndOfTransfer {}, EndOfTransfer {});
}
