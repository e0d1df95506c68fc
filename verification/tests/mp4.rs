use tagtiger::error::Error;
use tagtiger::mp4dim::{collect_tkhd_dims, find_box, video_dimensions};
use tagtiger::mp4rewrite::{
    is_fast_start, moov_precedes_mdat, next_chunk, normalize_moov_first, normalize_moov_last,
    patch_chunk_offsets, patch_co64, patch_stco, plan_moov_first, plan_moov_last, scan_layout,
    write_free_box, Piece, Plan, CHUNK, FREE, MDAT, MOOV,
};
use tagtiger::save::reported_phase;
use tagtiger::tag::{begin_save, next_save_step, SaveStep, StepOutcome, WritePhase};

fn box_wrap(fourcc: &[u8; 4], content: &[u8]) -> Vec<u8> {
    let size = (8 + content.len()) as u32;
    let mut v = Vec::new();
    v.extend_from_slice(&size.to_be_bytes());
    v.extend_from_slice(fourcc);
    v.extend_from_slice(content);
    v
}

fn u32_at(data: &[u8], at: usize) -> u32 {
    u32::from_be_bytes([data[at], data[at + 1], data[at + 2], data[at + 3]])
}

/// A movie box with one table of 32-bit chunk offsets that holds one entry.
fn moov_with_offset(offset: u32) -> Vec<u8> {
    let mut stco = vec![0u8, 0, 0, 0];
    stco.extend_from_slice(&1u32.to_be_bytes());
    stco.extend_from_slice(&offset.to_be_bytes());
    let stco = box_wrap(b"stco", &stco);
    let stbl = box_wrap(b"stbl", &stco);
    let minf = box_wrap(b"minf", &stbl);
    let mdia = box_wrap(b"mdia", &minf);
    let trak = box_wrap(b"trak", &mdia);
    box_wrap(b"moov", &trak)
}

#[test]
fn patches_stco_offsets() {
    let mut content = Vec::new();
    content.extend_from_slice(&[0, 0, 0, 0]);
    content.extend_from_slice(&2u32.to_be_bytes());
    content.extend_from_slice(&1000u32.to_be_bytes());
    content.extend_from_slice(&2000u32.to_be_bytes());
    patch_stco(&mut content, -100).unwrap();
    assert_eq!(u32_at(&content, 8), 900);
    assert_eq!(u32_at(&content, 12), 1900);
}

#[test]
fn patches_co64_offsets() {
    let mut content = Vec::new();
    content.extend_from_slice(&[0, 0, 0, 0]);
    content.extend_from_slice(&1u32.to_be_bytes());
    content.extend_from_slice(&5_000_000_000u64.to_be_bytes());
    patch_co64(&mut content, 256).unwrap();
    let o = u64::from_be_bytes([
        content[8],
        content[9],
        content[10],
        content[11],
        content[12],
        content[13],
        content[14],
        content[15],
    ]);
    assert_eq!(o, 5_000_000_256);
}

#[test]
fn walks_nested_stco() {
    let mut moov = moov_with_offset(4000);
    patch_chunk_offsets(&mut moov[8..], -500).unwrap();
    let last4 = moov.len() - 4;
    assert_eq!(u32_at(&moov, last4), 3500);
}

#[test]
fn patching_back_restores_the_movie() {
    let before = moov_with_offset(4000);
    let mut moov = before.clone();
    patch_chunk_offsets(&mut moov[8..], 123).unwrap();
    assert_ne!(moov, before);
    patch_chunk_offsets(&mut moov[8..], -123).unwrap();
    assert_eq!(moov, before);
}

#[test]
fn table_without_a_count_is_an_error() {
    let short = |r: tagtiger::error::Result<()>| match r {
        Err(Error::Other(m)) => m,
        other => panic!("unexpected: {other:?}"),
    };
    assert_eq!(short(patch_stco(&mut [0u8; 7], 1)), "stco too small");
    assert_eq!(short(patch_co64(&mut [0u8; 7], 1)), "co64 too small");
}

#[test]
fn count_beyond_the_table_stops_at_its_end() {
    let mut content = Vec::new();
    content.extend_from_slice(&[0, 0, 0, 0]);
    content.extend_from_slice(&9u32.to_be_bytes());
    content.extend_from_slice(&5u32.to_be_bytes());
    content.extend_from_slice(&[1, 2]);
    patch_stco(&mut content, 2).unwrap();
    assert_eq!(u32_at(&content, 8), 7);
    assert_eq!(&content[12..], &[1, 2]);
}

#[test]
fn normalize_moves_moov_after_mdat_and_patches_offsets() {
    let ftyp = box_wrap(b"ftyp", &[b'i', b's', b'o', b'm', 0, 0, 0, 0]);
    let mdat_payload = b"MEDIA-SAMPLE-BYTES";
    let mdat = box_wrap(b"mdat", mdat_payload);
    let moov_len = moov_with_offset(0).len();
    let moov = moov_with_offset((ftyp.len() + moov_len + 8) as u32);

    let mut src = ftyp.clone();
    src.extend_from_slice(&moov);
    src.extend_from_slice(&mdat);
    assert!(moov_precedes_mdat(&src).unwrap());

    let mut out = Vec::new();
    assert!(normalize_moov_last(&src, &mut out).unwrap());
    assert!(!moov_precedes_mdat(&out).unwrap());

    let layout = scan_layout(&out).unwrap();
    let moov_box = &layout.boxes[layout.index_of(MOOV).unwrap()];
    let end = (moov_box.start + moov_box.len) as usize;
    let patched = u32_at(&out, end - 4);
    assert_eq!(patched, (ftyp.len() + 8) as u32);
    assert_eq!(&out[patched as usize..patched as usize + mdat_payload.len()], mdat_payload);

    // A second save leaves the layout alone.
    let mut again = Vec::new();
    assert!(!normalize_moov_last(&out, &mut again).unwrap());
    assert!(again.is_empty());
}

#[test]
fn normalize_moves_moov_before_mdat_and_patches_offsets() {
    let ftyp = box_wrap(b"ftyp", &[b'i', b's', b'o', b'm', 0, 0, 0, 0]);
    let pre_free = box_wrap(b"free", &[0u8; 4]);
    let mdat_payload = b"MEDIA-SAMPLE-BYTES-XYZ";
    let mdat = box_wrap(b"mdat", mdat_payload);
    let moov = moov_with_offset((ftyp.len() + pre_free.len() + 8) as u32);

    let mut src = ftyp.clone();
    src.extend_from_slice(&pre_free);
    src.extend_from_slice(&mdat);
    src.extend_from_slice(&moov);
    assert!(!is_fast_start(&src).unwrap());

    let mut out = Vec::new();
    assert!(normalize_moov_first(&src, &mut out).unwrap());
    assert!(is_fast_start(&out).unwrap());

    let layout = scan_layout(&out).unwrap();
    let mdat_box = &layout.boxes[layout.index_of(MDAT).unwrap()];
    let moov_box = &layout.boxes[layout.index_of(MOOV).unwrap()];
    let end = (moov_box.start + moov_box.len) as usize;
    let patched = u32_at(&out, end - 4);
    assert_eq!(patched, (mdat_box.start + 8) as u32);
    assert_eq!(&out[patched as usize..patched as usize + mdat_payload.len()], mdat_payload);
}

#[test]
fn files_without_media_are_left_alone() {
    let mut out = Vec::new();
    let only_moov = moov_with_offset(1);
    assert!(!normalize_moov_last(&only_moov, &mut out).unwrap());
    assert!(!normalize_moov_first(&only_moov, &mut out).unwrap());
    assert!(!normalize_moov_last(&[], &mut out).unwrap());
    assert!(out.is_empty());
    assert!(!is_fast_start(&[]).unwrap());
}

#[test]
fn cut_header_is_an_error() {
    // A size of 1 announces eight more bytes, which are not there.
    let mut data = Vec::new();
    data.extend_from_slice(&1u32.to_be_bytes());
    data.extend_from_slice(b"mdat");
    assert!(matches!(scan_layout(&data), Err(Error::Io(_))));
}

#[test]
fn free_box_fills_its_length() {
    let mut out = vec![7u8];
    write_free_box(&mut out, 12);
    assert_eq!(out.len(), 13);
    assert_eq!(u32_at(&out, 1), 12);
    assert_eq!(u32_at(&out, 5), FREE);
}

#[test]
fn media_is_copied_in_chunks() {
    assert_eq!(next_chunk(10), 10);
    assert_eq!(next_chunk(CHUNK), CHUNK);
    assert_eq!(next_chunk(CHUNK + 1), CHUNK);
    assert_eq!(next_chunk(0), 0);
}

/// A movie box with a track header of the short form for each size.
fn moov_with_tracks(sizes: &[(u32, u32)]) -> Vec<u8> {
    let mut tracks = Vec::new();
    for (w, h) in sizes {
        let mut tkhd = vec![0u8; 76];
        tkhd.extend_from_slice(&(w << 16).to_be_bytes());
        tkhd.extend_from_slice(&(h << 16).to_be_bytes());
        let tkhd = box_wrap(b"tkhd", &tkhd);
        tracks.extend_from_slice(&box_wrap(b"trak", &tkhd));
    }
    box_wrap(b"moov", &tracks)
}

#[test]
fn dimensions_are_those_of_the_largest_track() {
    let mut data = box_wrap(b"ftyp", b"isom");
    data.extend_from_slice(&moov_with_tracks(&[(0, 0), (640, 480), (1920, 1080), (320, 240)]));
    assert_eq!(video_dimensions(&data), Some((1920, 1080)));
    assert_eq!(video_dimensions(&moov_with_tracks(&[(0, 0)])), None);
    assert_eq!(video_dimensions(b"not a movie"), None);
    let (start, end) = find_box(&data, MOOV).unwrap();
    assert_eq!(start, 20);
    let best = collect_tkhd_dims(&data, start as usize, end as usize, None);
    assert_eq!(best, Some((1920, 1080)));
    let kept = collect_tkhd_dims(&data, start as usize, end as usize, Some((4000, 4000)));
    assert_eq!(kept, Some((4000, 4000)));
    assert_eq!(find_box(&data, MDAT), None);
}

#[test]
fn a_layout_is_made_once() {
    let ftyp = box_wrap(b"ftyp", b"isom");
    let mdat = box_wrap(b"mdat", &[7; 32]);
    let moov = moov_with_offset((ftyp.len() + 8) as u32);
    let plain = [ftyp, mdat, moov].concat();
    assert_eq!(begin_save(is_fast_start(&plain).unwrap(), false), SaveStep::TagInPlace);
    assert_eq!(begin_save(is_fast_start(&plain).unwrap(), true), SaveStep::Copy);
    let mut fast = Vec::new();
    assert!(normalize_moov_first(&plain, &mut fast).unwrap());
    assert_eq!(begin_save(is_fast_start(&fast).unwrap(), true), SaveStep::TagInPlace);
    let mut back = Vec::new();
    assert!(normalize_moov_last(&fast, &mut back).unwrap());
    assert_eq!(begin_save(is_fast_start(&back).unwrap(), false), SaveStep::TagInPlace);
}

/// The bytes that are done after each chunk of a rewriting.
fn marks(plan: &Plan) -> Vec<u64> {
    let mut done = 0;
    let mut out = Vec::new();
    for piece in &plan.pieces {
        if let Piece::Copied(b) = piece {
            let mut left = b.len;
            while left > 0 {
                let n = next_chunk(left);
                left -= n;
                done += n;
                out.push(done);
            }
        }
    }
    out
}

#[test]
fn progress_stays_within_the_total() {
    let ftyp = box_wrap(b"ftyp", b"isom");
    let mdat = box_wrap(b"mdat", &vec![7; CHUNK as usize + 5]);
    let moov = moov_with_offset((ftyp.len() + 8) as u32);
    let copied = (ftyp.len() + mdat.len()) as u64;
    let plain = [ftyp.clone(), mdat.clone(), moov.clone()].concat();
    let fast = [ftyp, moov, mdat].concat();
    let first = plan_moov_first(&scan_layout(&plain).unwrap(), plain.len() as u64).unwrap();
    let last = plan_moov_last(&scan_layout(&fast).unwrap(), fast.len() as u64).unwrap();
    for plan in [first, last] {
        let marks = marks(&plan);
        assert_eq!(plan.total, copied);
        assert_eq!(marks.len(), 3);
        assert!(marks.iter().all(|done| *done <= plan.total));
        assert_eq!(marks.last(), Some(&copied));
    }
}

/// The three files of a save, kept in memory.
struct Disk {
    file: Vec<u8>,
    first: Option<Vec<u8>>,
    second: Option<Vec<u8>>,
}

/// Saves on a disk in memory, with a writer that changes nothing, and fails at a step if wanted.
/// Gives whether it succeeded, the steps, and the passes that were reported.
fn save(
    disk: &mut Disk,
    fast_start: bool,
    fail_at: Option<SaveStep>,
) -> (bool, Vec<SaveStep>, Vec<WritePhase>) {
    let mut step = begin_save(is_fast_start(&disk.file).unwrap(), fast_start);
    let mut steps = Vec::new();
    let mut phases = Vec::new();
    while step != SaveStep::Done && step != SaveStep::Failed {
        steps.push(step);
        phases.extend(reported_phase(step));
        let mut outcome = StepOutcome::Worked;
        if fail_at == Some(step) {
            outcome = StepOutcome::Broke;
        } else {
            match step {
                SaveStep::Copy => disk.first = Some(disk.file.clone()),
                SaveStep::MoovFirst | SaveStep::MoovLast => {
                    let src = disk.first.clone().unwrap();
                    let mut out = Vec::new();
                    let moved = if step == SaveStep::MoovFirst {
                        normalize_moov_first(&src, &mut out).unwrap()
                    } else {
                        normalize_moov_last(&src, &mut out).unwrap()
                    };
                    if moved {
                        disk.second = Some(out);
                    } else {
                        outcome = StepOutcome::Unchanged;
                    }
                }
                SaveStep::TakeRewritten => disk.first = disk.second.take(),
                SaveStep::Replace => disk.file = disk.first.take().unwrap(),
                SaveStep::CleanUp => {
                    disk.first = None;
                    disk.second = None;
                }
                _ => {}
            }
        }
        step = next_save_step(step, fast_start, outcome);
    }
    (step == SaveStep::Done, steps, phases)
}

#[test]
fn a_whole_save_gives_the_layout_or_leaves_the_file() {
    let ftyp = box_wrap(b"ftyp", b"isom");
    let mdat = box_wrap(b"mdat", &[7; 32]);
    let moov = moov_with_offset((ftyp.len() + 8) as u32);
    let plain = [ftyp, mdat, moov].concat();
    let mut disk = Disk { file: plain, first: None, second: None };
    for fast_start in [true, false] {
        for step in [SaveStep::Copy, SaveStep::TagCopy, SaveStep::TakeRewritten, SaveStep::Replace] {
            let before = disk.file.clone();
            let (worked, _, _) = save(&mut disk, fast_start, Some(step));
            assert!(!worked);
            assert_eq!(disk.file, before);
            assert_eq!((&disk.first, &disk.second), (&None, &None));
        }
        let (worked, _, phases) = save(&mut disk, fast_start, None);
        assert!(worked);
        assert_eq!(phases, vec![WritePhase::Copying, WritePhase::Optimizing]);
        assert_eq!(is_fast_start(&disk.file).unwrap(), fast_start);
        // A second save writes in place, and nothing moves.
        let before = disk.file.clone();
        let (worked, steps, phases) = save(&mut disk, fast_start, None);
        assert!(worked);
        assert_eq!(steps, vec![SaveStep::TagInPlace]);
        assert_eq!(phases, vec![]);
        assert_eq!(disk.file, before);
    }
}
