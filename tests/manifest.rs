use k2::codec::{format_fixed, parse_list, parse_number, push_list};
use k2::error::ManifestError;
use k2::manifest::{
    apply_patch, check_permutation, format_int_field, FieldPatch, JobStatus, ManifestHeader,
    ManifestManager,
};
use k2::util::num_digits;

fn header_bytes(num_reboots: &str, next_idx: &str, ordering: &str) -> Vec<u8> {
    format!("num_reboots={}\nnext_idx={}\nordering={}", num_reboots, next_idx, ordering).into_bytes()
}

fn is_perm(v: &[usize]) -> bool {
    let mut seen = vec![false; v.len()];
    for &x in v {
        if x >= v.len() || seen[x] {
            return false;
        }
        seen[x] = true;
    }
    true
}

#[test]
fn fresh_header_is_a_permutation() {
    for n in [0usize, 1, 2, 3, 10, 100] {
        let h = ManifestHeader::new(n);
        assert_eq!(h.ordering.len(), n);
        assert!(is_perm(&h.ordering));
        assert_eq!(h.num_reboots, 0);
        assert_eq!(h.next_idx, 0);
    }
}

#[test]
fn fresh_header_is_shuffled() {
    let h = ManifestHeader::new(60);
    let identity: Vec<usize> = (0..60).collect();
    assert_ne!(h.ordering, identity);
}

#[test]
fn fresh_header_text() {
    let mut h = ManifestHeader::new(3);
    h.ordering = vec![2, 0, 1];
    assert_eq!(h.to_bytes(), header_bytes("00000000", "0000", "2,0,1"));
    assert_eq!(h.ordering_str(), b"2,0,1".to_vec());
}

#[test]
fn reopen_keeps_ordering() {
    let h = ManifestHeader::new(25);
    let mut file = h.to_bytes();
    for _ in 0..10 {
        let again = ManifestHeader::parse(&file).unwrap();
        assert_eq!(again.ordering, h.ordering);
        file = again.to_bytes();
    }
}

#[test]
fn sync_round_trip() {
    let h = ManifestHeader::new(12);
    let mut file = h.to_bytes();
    let len = file.len();
    let mut m = ManifestManager::new(ManifestHeader::parse(&file).unwrap());
    for status in [JobStatus::Done, JobStatus::Outstanding, JobStatus::Error] {
        m.update_status(status).unwrap();
        m.update_num_reboots().unwrap();
        let (patches, _) = m.sync();
        for p in &patches {
            apply_patch(&mut file, p);
        }
        assert_eq!(file.len(), len);
        let back = ManifestHeader::parse(&file).unwrap();
        assert_eq!(back.num_reboots, m.manifest_hdr.num_reboots);
        assert_eq!(back.next_idx, m.manifest_hdr.next_idx);
        assert_eq!(back.ordering, h.ordering);
    }
    assert_eq!(m.manifest_hdr.num_reboots, 3);
    assert_eq!(m.manifest_hdr.next_idx, 2);
}

#[test]
fn parse_records_offsets() {
    let h = ManifestHeader::parse(&header_bytes("00000042", "0007", "3,1,0,2,4,5,6,7,8,9")).unwrap();
    assert_eq!(h.num_reboots, 42);
    assert_eq!(h.next_idx, 7);
    assert_eq!(h.num_reboots_offset, 12);
    assert_eq!(h.next_idx_offset, 30);
    assert_eq!(h.ordering, vec![3, 1, 0, 2, 4, 5, 6, 7, 8, 9]);
    let patches = h.sync();
    assert_eq!(patches.len(), 2);
    assert_eq!(patches[0].offset, 12);
    assert_eq!(patches[0].bytes, b"00000042".to_vec());
    assert_eq!(patches[1].offset, 30);
    assert_eq!(patches[1].bytes, b"0007".to_vec());
}

#[test]
fn parse_empty_ordering() {
    let h = ManifestHeader::parse(&header_bytes("00000000", "0000", "")).unwrap();
    assert!(h.ordering.is_empty());
    assert_eq!(h.next_job_id(), None);
}

#[test]
fn parse_rejects_malformed() {
    let cases = [
        header_bytes("0000000", "0000", "0"),
        header_bytes("000000000", "0000", "0"),
        header_bytes("00000000", "000", "0"),
        header_bytes("0000000a", "0000", "0"),
        header_bytes("00000000", "0000", "01"),
        header_bytes("00000000", "0000", "0,"),
        header_bytes("00000000", "0000", ",0"),
        header_bytes("00000000", "0000", "0,,1"),
        header_bytes("00000000", "0000", "0\n"),
        b"next_idx=0000\nnum_reboots=00000000\nordering=0".to_vec(),
        b"garbage".to_vec(),
        Vec::new(),
    ];
    for c in cases.iter() {
        assert_eq!(ManifestHeader::parse(c).unwrap_err(), ManifestError::Malformed);
    }
}

#[test]
fn parse_rejects_corrupt() {
    let cases = [
        header_bytes("00000000", "0000", "0,0"),
        header_bytes("00000000", "0000", "1,2"),
        header_bytes("00000000", "0003", "1,0"),
    ];
    for c in cases.iter() {
        assert_eq!(ManifestHeader::parse(c).unwrap_err(), ManifestError::Corrupt);
    }
    assert!(ManifestHeader::parse(&header_bytes("00000000", "0002", "1,0")).is_ok());
}

#[test]
fn scenario_three_jobs() {
    let h = ManifestHeader::parse(&header_bytes("00000000", "0000", "2,0,1")).unwrap();
    let mut m = ManifestManager::new(h);
    assert_eq!(m.next_job(), Some(2));
    m.update_status(JobStatus::Done).unwrap();
    assert_eq!(m.manifest_hdr.next_idx, 1);
    assert_eq!(m.next_job(), Some(0));
    m.update_status(JobStatus::Outstanding).unwrap();
    assert_eq!(m.manifest_hdr.next_idx, 1);
    assert_eq!(m.next_job(), Some(0));
    m.update_status(JobStatus::Error).unwrap();
    assert_eq!(m.manifest_hdr.next_idx, 2);
    assert_eq!(m.next_job(), Some(1));
    m.update_status(JobStatus::Done).unwrap();
    assert_eq!(m.manifest_hdr.next_idx, 3);
    assert_eq!(m.next_job(), None);
}

#[test]
fn sync_reports_the_job_that_ran() {
    let h = ManifestHeader::parse(&header_bytes("00000000", "0000", "2,0,1")).unwrap();
    let mut m = ManifestManager::new(h);
    assert_eq!(m.sync().1, None);
    m.update_status(JobStatus::Outstanding).unwrap();
    assert_eq!(m.sync().1, Some((2, JobStatus::Outstanding)));
    m.update_status(JobStatus::Done).unwrap();
    assert_eq!(m.sync().1, Some((2, JobStatus::Done)));
    m.update_status(JobStatus::Error).unwrap();
    assert_eq!(m.sync().1, Some((0, JobStatus::Error)));
}

#[test]
fn advancing_num_jobs_times_exhausts() {
    let mut h = ManifestHeader::new(4);
    for _ in 0..4 {
        assert!(h.next_job_id().is_some());
        h.advance_next_idx().unwrap();
    }
    assert_eq!(h.next_job_id(), None);
    assert_eq!(h.advance_next_idx(), Err(ManifestError::ScheduleExhausted));
    assert_eq!(h.next_idx, 4);
    let mut m = ManifestManager::new(h);
    assert_eq!(m.next_job(), None);
    assert_eq!(m.update_status(JobStatus::Done), Err(ManifestError::ScheduleExhausted));
    assert_eq!(m.update_status(JobStatus::Outstanding), Ok(()));
}

#[test]
fn next_idx_overflow_is_detected() {
    let mut h = ManifestHeader::new(10001);
    h.next_idx = 9998;
    h.advance_next_idx().unwrap();
    assert_eq!(h.next_idx, 9999);
    assert_eq!(h.advance_next_idx(), Err(ManifestError::FieldTooWide));
    assert_eq!(h.next_idx, 9999);
    let mut m = ManifestManager::new(h);
    assert_eq!(m.update_status(JobStatus::Error), Err(ManifestError::FieldTooWide));
    assert_eq!(m.manifest_hdr.next_idx, 9999);
}

#[test]
fn num_reboots_overflow_is_detected() {
    let mut h = ManifestHeader::new(1);
    h.num_reboots = 99999998;
    h.increment_reboots().unwrap();
    assert_eq!(h.num_reboots, 99999999);
    assert_eq!(h.increment_reboots(), Err(ManifestError::FieldTooWide));
    assert_eq!(h.num_reboots, 99999999);
    assert_eq!(h.sync()[0].bytes, b"99999999".to_vec());
}

#[test]
fn format_int_field_pads_and_rejects() {
    assert_eq!(format_int_field(5, 4), Some(b"0005".to_vec()));
    assert_eq!(format_int_field(0, 8), Some(b"00000000".to_vec()));
    assert_eq!(format_int_field(9999, 4), Some(b"9999".to_vec()));
    assert_eq!(format_int_field(10000, 4), None);
    assert_eq!(format_int_field(123456789, 8), None);
    assert_eq!(format_int_field(0, 0), None);
    assert_eq!(format_fixed(123, 2), b"23".to_vec());
}

#[test]
fn num_digits_values() {
    assert_eq!(num_digits(0), 1);
    assert_eq!(num_digits(9), 1);
    assert_eq!(num_digits(10), 2);
    assert_eq!(num_digits(99999999), 8);
    assert_eq!(num_digits(100000000), 9);
    assert_eq!(num_digits(usize::MAX), usize::MAX.to_string().len());
}

#[test]
fn numbers_and_lists() {
    let b = b"x0042,7,10".to_vec();
    assert_eq!(parse_number(&b, 1, 5), Some(42));
    assert_eq!(parse_number(&b, 0, 2), None);
    assert_eq!(parse_number(&b, 1, 1), Some(0));
    let big = b"99999999999999999999999".to_vec();
    assert_eq!(parse_number(&big, 0, big.len()), None);
    assert_eq!(parse_list(&b"7,10,0".to_vec(), 0), Some(vec![7, 10, 0]));
    assert_eq!(parse_list(&b"x7,10".to_vec(), 1), Some(vec![7, 10]));
    assert_eq!(parse_list(&b"7,010".to_vec(), 0), None);
    let mut out = b"ordering=".to_vec();
    push_list(&mut out, &vec![3, 0, 12]);
    assert_eq!(out, b"ordering=3,0,12".to_vec());
}

#[test]
fn permutation_check() {
    assert!(check_permutation(&vec![]));
    assert!(check_permutation(&vec![1, 2, 0]));
    assert!(!check_permutation(&vec![1, 1, 0]));
    assert!(!check_permutation(&vec![3, 1, 0]));
}

#[test]
fn patch_overwrites_in_place() {
    let mut buf = b"abcdefgh".to_vec();
    apply_patch(&mut buf, &FieldPatch { offset: 2, bytes: b"XYZ".to_vec() });
    assert_eq!(buf, b"abXYZfgh".to_vec());
}

#[test]
fn status_codes() {
    assert_eq!(JobStatus::Outstanding.code(), 0);
    assert_eq!(JobStatus::Done.code(), 1);
    assert_eq!(JobStatus::Error.code(), 2);
}
