use fatdir::record::{ATTR_DIRECTORY, ATTR_LFN, ATTR_VOLUME_ID};
use fatdir::time::{FatDate, FatDateTime};
use fatdir::{Error, FatSharedState, IoError, IoErrorClass};

fn name11(base: &str, ext: &str) -> [u8; 11] {
    let mut n = [b' '; 11];
    n[..base.len()].copy_from_slice(base.as_bytes());
    n[8..8 + ext.len()].copy_from_slice(ext.as_bytes());
    n
}

struct ShortSpec {
    name: [u8; 11],
    attrs: u8,
    create_time: u16,
    create_date: u16,
    access_date: u16,
    cluster_hi: u16,
    modify_time: u16,
    modify_date: u16,
    cluster_lo: u16,
    size: u32,
}

impl ShortSpec {
    fn plain(name: [u8; 11]) -> ShortSpec {
        ShortSpec {
            name,
            attrs: 0x20,
            create_time: 0,
            create_date: 0x0021,
            access_date: 0x0021,
            cluster_hi: 0,
            modify_time: 0,
            modify_date: 0x0021,
            cluster_lo: 2,
            size: 0,
        }
    }

    fn bytes(&self) -> Vec<u8> {
        let mut r = vec![0u8; 32];
        r[..11].copy_from_slice(&self.name);
        r[11] = self.attrs;
        r[14..16].copy_from_slice(&self.create_time.to_le_bytes());
        r[16..18].copy_from_slice(&self.create_date.to_le_bytes());
        r[18..20].copy_from_slice(&self.access_date.to_le_bytes());
        r[20..22].copy_from_slice(&self.cluster_hi.to_le_bytes());
        r[22..24].copy_from_slice(&self.modify_time.to_le_bytes());
        r[24..26].copy_from_slice(&self.modify_date.to_le_bytes());
        r[26..28].copy_from_slice(&self.cluster_lo.to_le_bytes());
        r[28..32].copy_from_slice(&self.size.to_le_bytes());
        r
    }
}

fn lfn_rec(order: u8, units: &[u16; 13]) -> Vec<u8> {
    let mut r = vec![0u8; 32];
    r[0] = order;
    r[11] = ATTR_LFN;
    for i in 0..5 {
        r[1 + 2 * i..3 + 2 * i].copy_from_slice(&units[i].to_le_bytes());
    }
    for i in 5..11 {
        r[4 + 2 * i..6 + 2 * i].copy_from_slice(&units[i].to_le_bytes());
    }
    for i in 11..13 {
        r[6 + 2 * i..8 + 2 * i].copy_from_slice(&units[i].to_le_bytes());
    }
    r
}

// The 13-unit fragment chunks of a long name: a 0x0000 terminator after the
// text, then 0xFFFF padding, as stored on disk.
fn lfn_chunks(name: &str) -> Vec<[u16; 13]> {
    let units: Vec<u16> = name.encode_utf16().collect();
    let n = units.len() / 13 + 1;
    let mut padded = units.clone();
    padded.push(0);
    padded.resize(13 * n, 0xffff);
    let mut chunks = Vec::new();
    for k in 0..n {
        let mut c = [0u16; 13];
        c.copy_from_slice(&padded[13 * k..13 * (k + 1)]);
        chunks.push(c);
    }
    chunks
}

fn terminator() -> Vec<u8> {
    vec![0u8; 32]
}

fn region(records: &[Vec<u8>]) -> Vec<u8> {
    let mut b = Vec::new();
    for r in records {
        b.extend_from_slice(r);
    }
    b
}

#[test]
fn list_mixed_records_in_order() {
    let chunks = lfn_chunks("Report.txt");
    let mut recs = vec![lfn_rec(0x41, &chunks[0])];
    let mut file = ShortSpec::plain(name11("REPORT", "TXT"));
    file.size = 1234;
    recs.push(file.bytes());
    recs.push(ShortSpec::plain(name11("NOTES", "")).bytes());
    recs.push(terminator());
    let fs = FatSharedState::new(region(&recs));
    let mut root = fs.root_dir();
    let entries = root.list::<()>().unwrap();
    assert_eq!(entries.len(), 2);
    assert_eq!(entries[0].file_name(), "Report.txt");
    assert_eq!(entries[0].short_file_name(), "REPORT.TXT");
    assert_eq!(entries[0].len(), 1234);
    assert_eq!(entries[1].file_name(), "NOTES");
    assert_eq!(entries[1].short_file_name(), "NOTES");
}

#[test]
fn long_name_from_reverse_order_fragments() {
    let name = "a long file name over thirteen units.txt";
    let chunks = lfn_chunks(name);
    assert!(chunks.len() >= 2);
    let mut recs = Vec::new();
    for k in (0..chunks.len()).rev() {
        let mut order = (k + 1) as u8;
        if k == chunks.len() - 1 {
            order |= 0x40;
        }
        recs.push(lfn_rec(order, &chunks[k]));
    }
    recs.push(ShortSpec::plain(name11("ALONGF~1", "TXT")).bytes());
    recs.push(terminator());
    let fs = FatSharedState::new(region(&recs));
    let mut root = fs.root_dir();
    let entries = root.list::<()>().unwrap();
    assert_eq!(entries.len(), 1);
    assert_eq!(entries[0].file_name(), name);
}

#[test]
fn deleted_fragment_clears_long_name() {
    let chunks = lfn_chunks("Ghost.txt");
    let mut frag = lfn_rec(0xe5, &chunks[0]);
    frag[11] = ATTR_LFN;
    let recs = vec![frag, ShortSpec::plain(name11("REAL", "TXT")).bytes(), terminator()];
    let fs = FatSharedState::new(region(&recs));
    let mut root = fs.root_dir();
    let entries = root.list::<()>().unwrap();
    assert_eq!(entries.len(), 1);
    assert_eq!(entries[0].file_name(), "REAL.TXT");
}

#[test]
fn terminator_ends_iteration_despite_remaining_bytes() {
    let recs = vec![
        ShortSpec::plain(name11("FIRST", "")).bytes(),
        terminator(),
        ShortSpec::plain(name11("AFTER", "")).bytes(),
    ];
    let fs = FatSharedState::new(region(&recs));
    let mut root = fs.root_dir();
    let entries = root.list::<()>().unwrap();
    assert_eq!(entries.len(), 1);
    assert_eq!(entries[0].file_name(), "FIRST");
}

#[test]
fn deleted_and_volume_entries_are_skipped_without_leaking() {
    let chunks = lfn_chunks("Leaky.txt");
    let mut deleted = ShortSpec::plain(name11("GONE", "TXT"));
    deleted.name[0] = 0xe5;
    let mut volume = ShortSpec::plain(name11("VOLLABEL", ""));
    volume.attrs = ATTR_VOLUME_ID;
    let recs = vec![
        lfn_rec(0x41, &chunks[0]),
        volume.bytes(),
        deleted.bytes(),
        ShortSpec::plain(name11("KEPT", "TXT")).bytes(),
        terminator(),
    ];
    let fs = FatSharedState::new(region(&recs));
    let mut root = fs.root_dir();
    let entries = root.list::<()>().unwrap();
    assert_eq!(entries.len(), 1);
    // the earlier fragment must not leak into this entry's long name
    assert_eq!(entries[0].file_name(), "KEPT.TXT");
}

#[test]
fn cluster_number_reconstruction() {
    let mut file = ShortSpec::plain(name11("DATA", "BIN"));
    file.cluster_hi = 0x0001;
    file.cluster_lo = 0x0002;
    let recs = vec![file.bytes(), terminator()];
    let fs = FatSharedState::new(region(&recs));
    let mut root = fs.root_dir();
    let entries = root.list::<()>().unwrap();
    assert_eq!(entries[0].first_cluster(), 0x0001_0002);
    let handle = entries[0].to_file::<()>().unwrap();
    assert_eq!(handle.first_cluster, 0x0001_0002);
}

#[test]
fn date_time_decoding() {
    let mut file = ShortSpec::plain(name11("OLD", "TXT"));
    file.create_date = 0x0021;
    file.create_time = 0x0000;
    file.access_date = 0x0021;
    let recs = vec![file.bytes(), terminator()];
    let fs = FatSharedState::new(region(&recs));
    let mut root = fs.root_dir();
    let entries = root.list::<()>().unwrap();
    let expected = FatDateTime {
        date: FatDate { year: 1980, month: 1, day: 1 },
        hour: 0,
        min: 0,
        sec: 0,
    };
    assert_eq!(entries[0].created(), expected);
    assert_eq!(entries[0].accessed(), FatDate { year: 1980, month: 1, day: 1 });
}

fn docs_tree() -> FatSharedState {
    // root: directory `Docs` at cluster 5; cluster 5: file `Report.txt`
    let docs_chunks = lfn_chunks("Docs");
    let mut docs = ShortSpec::plain(name11("DOCS", ""));
    docs.attrs = ATTR_DIRECTORY;
    docs.cluster_lo = 5;
    let root_recs = vec![lfn_rec(0x41, &docs_chunks[0]), docs.bytes(), terminator()];
    let report_chunks = lfn_chunks("Report.txt");
    let mut report = ShortSpec::plain(name11("REPORT", "TXT"));
    report.cluster_lo = 9;
    report.size = 77;
    let docs_recs = vec![lfn_rec(0x41, &report_chunks[0]), report.bytes(), terminator()];
    let mut fs = FatSharedState::new(region(&root_recs));
    fs.add_region(5, region(&docs_recs));
    fs
}

#[test]
fn path_resolution_is_case_insensitive() {
    let fs = docs_tree();
    let mut root = fs.root_dir();
    let file = root.open_file::<()>("DOCS/report.TXT").unwrap();
    assert_eq!(file.first_cluster, 9);
    assert_eq!(file.size, Some(77));
    assert_eq!(file.len(), 77);
}

#[test]
fn missing_path_component_is_not_found() {
    let fs = docs_tree();
    let mut root = fs.root_dir();
    let err = root.open_file::<()>("docs/missing.txt").unwrap_err();
    assert!(matches!(err, Error::NotFound));
}

#[test]
fn open_dir_resolves_and_lists() {
    let fs = docs_tree();
    let mut root = fs.root_dir();
    let mut docs = root.open_dir::<()>("Docs").unwrap();
    let entries = docs.list::<()>().unwrap();
    assert_eq!(entries.len(), 1);
    assert_eq!(entries[0].file_name(), "Report.txt");
}

#[test]
fn open_file_on_directory_is_invalid_input() {
    let fs = docs_tree();
    let mut root = fs.root_dir();
    let err = root.open_file::<()>("Docs").unwrap_err();
    assert!(matches!(err, Error::InvalidInput));
}

#[test]
fn open_dir_on_file_is_invalid_input() {
    let fs = docs_tree();
    let mut root = fs.root_dir();
    let err = root.open_dir::<()>("Docs/Report.txt").unwrap_err();
    assert!(matches!(err, Error::InvalidInput));
}

#[test]
fn to_file_and_to_dir_check_the_kind() {
    let fs = docs_tree();
    let mut root = fs.root_dir();
    let entries = root.list::<()>().unwrap();
    assert!(entries[0].is_dir());
    assert!(!entries[0].is_file());
    assert!(entries[0].attributes().contains(ATTR_DIRECTORY));
    assert!(matches!(entries[0].to_file::<()>(), Err(Error::InvalidInput)));
    assert!(entries[0].to_dir::<()>().is_ok());
}

#[test]
fn rewind_then_list_twice_is_identical() {
    let fs = docs_tree();
    let mut root = fs.root_dir();
    root.rewind();
    let first: Vec<String> = root.list::<()>().unwrap().iter().map(|e| e.file_name()).collect();
    root.rewind();
    let second: Vec<String> = root.list::<()>().unwrap().iter().map(|e| e.file_name()).collect();
    assert_eq!(first, second);
    assert_eq!(first, vec!["Docs".to_string()]);
}

#[test]
fn truncated_region_is_unexpected_eof() {
    let mut bytes = ShortSpec::plain(name11("FIRST", "")).bytes();
    bytes.extend_from_slice(&[0u8; 10]);
    let fs = FatSharedState::new(bytes);
    let mut root = fs.root_dir();
    let err = root.list::<()>().unwrap_err();
    assert!(matches!(err, Error::UnexpectedEof));
}

#[test]
fn invalid_attribute_byte_is_corrupted_file_system() {
    let mut bad = ShortSpec::plain(name11("BAD", ""));
    bad.attrs = 0xc1;
    let recs = vec![bad.bytes(), terminator()];
    let fs = FatSharedState::new(region(&recs));
    let mut root = fs.root_dir();
    let err = root.list::<()>().unwrap_err();
    assert!(matches!(err, Error::CorruptedFileSystem));
}

#[test]
fn zero_slot_fragment_is_corrupted_file_system() {
    let chunks = lfn_chunks("Zero");
    let frag = lfn_rec(0x40, &chunks[0]);
    let recs = vec![frag, terminator()];
    let fs = FatSharedState::new(region(&recs));
    let mut root = fs.root_dir();
    let err = root.list::<()>().unwrap_err();
    assert!(matches!(err, Error::CorruptedFileSystem));
}

#[test]
fn error_classification_buckets() {
    assert_eq!(Error::<()>::NotFound.io_class(), IoErrorClass::NotFound);
    assert_eq!(Error::<()>::AlreadyExists.io_class(), IoErrorClass::AlreadyExists);
    assert_eq!(Error::<()>::InvalidInput.io_class(), IoErrorClass::InvalidInput);
    assert_eq!(Error::<()>::InvalidFileNameLength.io_class(), IoErrorClass::InvalidInput);
    assert_eq!(Error::<()>::UnsupportedFileNameCharacter.io_class(), IoErrorClass::InvalidInput);
    assert_eq!(Error::<()>::DirectoryIsNotEmpty.io_class(), IoErrorClass::InvalidInput);
    assert_eq!(Error::<()>::UnexpectedEof.io_class(), IoErrorClass::Other);
    assert_eq!(Error::<()>::WriteZero.io_class(), IoErrorClass::Other);
    assert_eq!(Error::<()>::CorruptedFileSystem.io_class(), IoErrorClass::Other);
    assert_eq!(Error::<()>::NotEnoughSpace.io_class(), IoErrorClass::Other);
    assert_eq!(Error::<()>::Io(()).io_class(), IoErrorClass::Other);
}

#[test]
fn io_error_trait_wraps_and_constructs() {
    let wrapped: Error<()> = Error::from(());
    assert!(matches!(wrapped, Error::Io(())));
    assert!(!wrapped.is_interrupted());
    assert!(matches!(Error::<()>::new_unexpected_eof_error(), Error::UnexpectedEof));
    assert!(matches!(Error::<()>::new_write_zero_error(), Error::WriteZero));
    assert!(!().is_interrupted());
}

#[test]
fn missing_subdirectory_region_is_unexpected_eof() {
    // `Docs` names cluster 5, but no region was added for it
    let mut docs = ShortSpec::plain(name11("DOCS", ""));
    docs.attrs = ATTR_DIRECTORY;
    docs.cluster_lo = 5;
    let recs = vec![docs.bytes(), terminator()];
    let fs = FatSharedState::new(region(&recs));
    let mut root = fs.root_dir();
    let err = root.open_file::<()>("Docs/anything.txt").unwrap_err();
    assert!(matches!(err, Error::UnexpectedEof));
}

#[test]
fn slashes_at_both_ends_are_ignored() {
    let fs = docs_tree();
    let mut root = fs.root_dir();
    let file = root.open_file::<()>("/Docs/Report.txt/").unwrap();
    assert_eq!(file.first_cluster, 9);
}

#[test]
fn non_ascii_component_compares_exactly() {
    let chunks = lfn_chunks("Grüße.txt");
    let mut recs = vec![lfn_rec(0x41, &chunks[0])];
    let mut file = ShortSpec::plain(name11("GRSSE~1", "TXT"));
    file.cluster_lo = 3;
    recs.push(file.bytes());
    recs.push(terminator());
    let fs = FatSharedState::new(region(&recs));
    let mut root = fs.root_dir();
    assert!(root.open_file::<()>("grÜSSE.txt").is_err());
    assert!(root.open_file::<()>("grüße.TXT").is_ok());
}

#[test]
fn next_and_rewind_restart_iteration() {
    let recs = vec![
        ShortSpec::plain(name11("AONE", "")).bytes(),
        ShortSpec::plain(name11("BTWO", "")).bytes(),
        terminator(),
    ];
    let fs = FatSharedState::new(region(&recs));
    let mut root = fs.root_dir();
    let e1 = root.next::<()>().unwrap().unwrap();
    assert_eq!(e1.file_name(), "AONE");
    let e2 = root.next::<()>().unwrap().unwrap();
    assert_eq!(e2.file_name(), "BTWO");
    assert!(root.next::<()>().is_none());
    root.rewind();
    let again = root.next::<()>().unwrap().unwrap();
    assert_eq!(again.file_name(), "AONE");
}

#[test]
fn forward_order_fragments_reconstruct() {
    let name = "another rather long file name.dat";
    let chunks = lfn_chunks(name);
    assert!(chunks.len() >= 2);
    let mut recs = Vec::new();
    for k in 0..chunks.len() {
        let mut order = (k + 1) as u8;
        if k == chunks.len() - 1 {
            order |= 0x40;
        }
        recs.push(lfn_rec(order, &chunks[k]));
    }
    recs.push(ShortSpec::plain(name11("ANOTHE~1", "DAT")).bytes());
    recs.push(terminator());
    let fs = FatSharedState::new(region(&recs));
    let mut root = fs.root_dir();
    let entries = root.list::<()>().unwrap();
    assert_eq!(entries[0].file_name(), name);
}

#[test]
fn empty_directory_region_reports_eof() {
    let fs = FatSharedState::new(Vec::new());
    let mut root = fs.root_dir();
    let err = root.list::<()>().unwrap_err();
    assert!(matches!(err, Error::UnexpectedEof));
}
