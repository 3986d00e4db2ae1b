use usi_resolver::enumerate::{join_path, name_has_run_prefix, name_is_excluded, RepositoryPrefix};
use usi_resolver::ident::{target_position, Identifier, Locator, ResolveError};
use usi_resolver::output::assemble_output;
use usi_resolver::search::{
    apply_event, next_action, not_found_error, search_start, SearchAction, SearchEvent, SearchState,
};
use usi_resolver::spectrum::{complete_peaks, needs_peak_picking, Spectrum};

fn ident(usi: &str, dataset: &str, run_name: &str, locator: Locator) -> Identifier {
    Identifier {
        usi: usi.as_bytes().to_vec(),
        dataset: dataset.as_bytes().to_vec(),
        run_name: run_name.as_bytes().to_vec(),
        locator,
    }
}

fn scan5_ident() -> Identifier {
    ident("mzspec:PXD000001:run01:scan:5", "PXD000001", "run01", Locator::Scan(5))
}

// ---- locator dispatch ----

#[test]
fn scan_locator_queries_previous_position() {
    assert_eq!(target_position(&Locator::Scan(5)), Ok(4));
    assert_eq!(target_position(&Locator::Scan(1)), Ok(0));
    assert_eq!(target_position(&Locator::Scan(232)), Ok(231));
}

#[test]
fn scan_locator_zero_saturates_to_zero() {
    assert_eq!(target_position(&Locator::Scan(0)), Ok(0));
}

#[test]
fn index_locator_queries_position_directly() {
    assert_eq!(target_position(&Locator::Index(0)), Ok(0));
    assert_eq!(target_position(&Locator::Index(7)), Ok(7));
}

#[test]
fn native_id_locator_is_unsupported() {
    assert_eq!(
        target_position(&Locator::NativeId(vec![1, 2])),
        Err(ResolveError::UnsupportedLocator)
    );
}

// ---- exclusion and prefix matching ----

#[test]
fn excluded_extension_is_detected_case_insensitively() {
    assert!(name_is_excluded(&b"run01.mgf".to_vec()));
    assert!(name_is_excluded(&b"run01.MGF".to_vec()));
    assert!(name_is_excluded(&b"run01.mGf".to_vec()));
    assert!(!name_is_excluded(&b"run01.mzML".to_vec()));
    assert!(!name_is_excluded(&b"run01.mgf.gz".to_vec()));
    assert!(!name_is_excluded(&b"run01mgf".to_vec()));
    assert!(!name_is_excluded(&b".mgf".to_vec()));
    assert!(!name_is_excluded(&b"run01".to_vec()));
}

#[test]
fn run_prefix_is_case_sensitive() {
    assert!(name_has_run_prefix(&b"run01.mzML".to_vec(), &b"run01".to_vec()));
    assert!(name_has_run_prefix(&b"run01_extra.mzML".to_vec(), &b"run01".to_vec()));
    assert!(!name_has_run_prefix(&b"Run01.mzML".to_vec(), &b"run01".to_vec()));
    assert!(!name_has_run_prefix(&b"run0".to_vec(), &b"run01".to_vec()));
}

// ---- candidate enumeration ----

fn listing(names: &[&str]) -> Vec<Vec<u8>> {
    names.iter().map(|n| n.as_bytes().to_vec()).collect()
}

#[test]
fn candidates_are_ranked_longest_name_first() {
    let prefix = RepositoryPrefix::new(b"/data".to_vec());
    let id = scan5_ident();
    let got = prefix
        .candidates(Some(listing(&["run01.mzML", "run01_longer_name.mzML", "run01_x.mzML"])), &id)
        .unwrap();
    assert_eq!(got, listing(&["run01_longer_name.mzML", "run01_x.mzML", "run01.mzML"]));
}

#[test]
fn candidate_ranking_is_deterministic() {
    let prefix = RepositoryPrefix::new(b"/data".to_vec());
    let id = scan5_ident();
    let names = ["run01_bb.mzML", "run01_aa.mzML", "run01.mzML"];
    let first = prefix.candidates(Some(listing(&names)), &id).unwrap();
    let second = prefix.candidates(Some(listing(&names)), &id).unwrap();
    assert_eq!(first, second);
    // names of equal length keep the listing's order
    assert_eq!(first, listing(&["run01_bb.mzML", "run01_aa.mzML", "run01.mzML"]));
}

#[test]
fn excluded_format_is_never_a_candidate() {
    let prefix = RepositoryPrefix::new(b"/data".to_vec());
    let id = scan5_ident();
    let got = prefix
        .candidates(Some(listing(&["run01.mgf", "run01.mzML", "run01_b.MGF"])), &id)
        .unwrap();
    assert_eq!(got, listing(&["run01.mzML"]));
}

#[test]
fn non_matching_names_are_filtered_out() {
    let prefix = RepositoryPrefix::new(b"/data".to_vec());
    let id = scan5_ident();
    let got = prefix
        .candidates(Some(listing(&["other.mzML", "run01.mzML", "run0.mzML"])), &id)
        .unwrap();
    assert_eq!(got, listing(&["run01.mzML"]));
}

#[test]
fn failed_listing_is_directory_unavailable() {
    let prefix = RepositoryPrefix::new(b"/data".to_vec());
    let id = scan5_ident();
    assert_eq!(prefix.candidates(None, &id), Err(ResolveError::DirectoryUnavailable));
}

#[test]
fn empty_directory_is_directory_unavailable() {
    // an empty dataset directory is as unavailable as an absent one,
    // distinguished from a searched directory that merely has no match
    let prefix = RepositoryPrefix::new(b"/data".to_vec());
    let id = scan5_ident();
    assert_eq!(prefix.candidates(Some(vec![]), &id), Err(ResolveError::DirectoryUnavailable));
    assert_eq!(prefix.candidates(Some(listing(&["other.mzML"])), &id), Ok(vec![]));
}

#[test]
fn paths_join_with_a_single_separator() {
    assert_eq!(join_path(&b"/data".to_vec(), &b"PXD000001".to_vec()), b"/data/PXD000001".to_vec());
    assert_eq!(join_path(&b"/data/".to_vec(), &b"PXD000001".to_vec()), b"/data/PXD000001".to_vec());
    assert_eq!(join_path(&b"".to_vec(), &b"x".to_vec()), b"x".to_vec());
}

// ---- peak completion ----

#[test]
fn peak_completion_is_idempotent() {
    let mut s = Spectrum { peaks: None, peak_count_param: None };
    assert!(needs_peak_picking(&s, false));
    complete_peaks(&mut s, false, Some(3));
    let once = s;
    assert!(!needs_peak_picking(&s, false));
    complete_peaks(&mut s, false, None);
    assert_eq!(s, once);
    assert_eq!(s.peaks, Some(3));
    assert_eq!(s.peak_count_param, Some(3));
}

#[test]
fn native_peaks_are_never_recomputed() {
    let mut s = Spectrum { peaks: Some(5), peak_count_param: None };
    assert!(!needs_peak_picking(&s, false));
    complete_peaks(&mut s, false, None);
    assert_eq!(s.peaks, Some(5));
    assert_eq!(s.peak_count_param, Some(5));
}

#[test]
fn metadata_only_skips_picking_and_leaves_spectrum_alone() {
    let mut s = Spectrum { peaks: None, peak_count_param: None };
    assert!(!needs_peak_picking(&s, true));
    complete_peaks(&mut s, true, None);
    assert_eq!(s, Spectrum { peaks: None, peak_count_param: None });
}

// ---- the search across prefixes ----

fn prefixes(roots: &[&str]) -> Vec<RepositoryPrefix> {
    roots.iter().map(|r| RepositoryPrefix::new(r.as_bytes().to_vec())).collect()
}

#[test]
fn first_prefix_with_a_spectrum_wins() {
    let ps = prefixes(&["/a", "/b"]);
    let id = scan5_ident();
    let st = search_start(&ps, &id);
    let act = next_action(&st, &ps, &id);
    match act {
        SearchAction::ListDirectory { path } => assert_eq!(path, b"/a/PXD000001".to_vec()),
        _ => panic!("expected a listing request"),
    }
    let st = apply_event(
        st,
        SearchEvent::Listing { entries: Some(listing(&["run01.mzML"])) },
        &ps,
        &id,
    );
    let act = next_action(&st, &ps, &id);
    match act {
        SearchAction::ExtractFrom { path } => assert_eq!(path, b"/a/PXD000001/run01.mzML".to_vec()),
        _ => panic!("expected an extraction request"),
    }
    let st = apply_event(st, SearchEvent::Extracted { success: true }, &ps, &id);
    match st {
        SearchState::Found { prefix } => assert_eq!(prefix, 0),
        _ => panic!("expected the search to end at the first prefix"),
    }
    // the search is over: the second prefix is never consulted
    assert!(matches!(next_action(&st, &ps, &id), SearchAction::ReportFound));
}

#[test]
fn unavailable_directory_moves_to_the_next_prefix() {
    let ps = prefixes(&["/a", "/b"]);
    let id = scan5_ident();
    let st = search_start(&ps, &id);
    let st = apply_event(st, SearchEvent::Listing { entries: None }, &ps, &id);
    match st {
        SearchState::Listing { prefix } => assert_eq!(prefix, 1),
        _ => panic!("an unavailable directory must not abort the search"),
    }
    let st = apply_event(
        st,
        SearchEvent::Listing { entries: Some(listing(&["run01.mzML"])) },
        &ps,
        &id,
    );
    let st = apply_event(st, SearchEvent::Extracted { success: true }, &ps, &id);
    assert!(matches!(st, SearchState::Found { prefix: 1 }));
}

#[test]
fn failed_extraction_tries_the_next_candidate_then_the_next_prefix() {
    let ps = prefixes(&["/a"]);
    let id = scan5_ident();
    let st = search_start(&ps, &id);
    let st = apply_event(
        st,
        SearchEvent::Listing { entries: Some(listing(&["run01_a.mzML", "run01.mzML"])) },
        &ps,
        &id,
    );
    let st = apply_event(st, SearchEvent::Extracted { success: false }, &ps, &id);
    match &st {
        SearchState::Trying { prefix, next, .. } => {
            assert_eq!(*prefix, 0);
            assert_eq!(*next, 1);
        },
        _ => panic!("expected the next candidate to be tried"),
    }
    let st = apply_event(st, SearchEvent::Extracted { success: false }, &ps, &id);
    assert!(matches!(st, SearchState::NotFound));
}

#[test]
fn dataset_absent_everywhere_reports_spectrum_not_found() {
    let ps = prefixes(&["/a", "/b"]);
    let id = scan5_ident();
    let st = search_start(&ps, &id);
    let st = apply_event(st, SearchEvent::Listing { entries: None }, &ps, &id);
    let st = apply_event(st, SearchEvent::Listing { entries: None }, &ps, &id);
    assert!(matches!(st, SearchState::NotFound));
    assert!(matches!(next_action(&st, &ps, &id), SearchAction::ReportNotFound));
    let err = not_found_error(&id);
    match err {
        ResolveError::SpectrumNotFound(usi) => {
            assert_eq!(usi, b"mzspec:PXD000001:run01:scan:5".to_vec())
        },
        _ => panic!("expected the not-found error"),
    }
}

#[test]
fn only_an_excluded_file_resolves_as_if_no_file_existed() {
    let ps = prefixes(&["/a"]);
    let id = scan5_ident();
    let st = search_start(&ps, &id);
    let st = apply_event(st, SearchEvent::Listing { entries: Some(listing(&["run01.mgf"])) }, &ps, &id);
    assert!(matches!(st, SearchState::NotFound));
}

#[test]
fn empty_directory_moves_to_the_next_prefix() {
    let ps = prefixes(&["/a", "/b"]);
    let id = scan5_ident();
    let st = search_start(&ps, &id);
    let st = apply_event(st, SearchEvent::Listing { entries: Some(vec![]) }, &ps, &id);
    match st {
        SearchState::Listing { prefix } => assert_eq!(prefix, 1),
        _ => panic!("an empty directory must not abort the search"),
    }
}

#[test]
fn no_configured_prefix_means_not_found() {
    let ps = prefixes(&[]);
    let id = scan5_ident();
    let st = search_start(&ps, &id);
    assert!(matches!(st, SearchState::NotFound));
}

// ---- end-to-end over the model ----

#[test]
fn found_spectrum_is_emitted_with_the_original_usi_and_its_peaks() {
    let ps = prefixes(&["/data"]);
    let id = scan5_ident();
    assert_eq!(target_position(&id.locator), Ok(4));
    let st = search_start(&ps, &id);
    let st = apply_event(
        st,
        SearchEvent::Listing { entries: Some(listing(&["run01.mzML"])) },
        &ps,
        &id,
    );
    // the file's native data yields 12 peaks at position 4
    let mut spectrum = Spectrum { peaks: Some(12), peak_count_param: None };
    complete_peaks(&mut spectrum, false, None);
    let st = apply_event(st, SearchEvent::Extracted { success: true }, &ps, &id);
    assert!(matches!(st, SearchState::Found { prefix: 0 }));
    let out = assemble_output(&spectrum, &id);
    assert_eq!(out.usi, b"mzspec:PXD000001:run01:scan:5".to_vec());
    assert!(out.peaks.unwrap() > 0);
}

#[test]
fn metadata_only_output_has_no_peak_list() {
    let id = scan5_ident();
    let mut spectrum = Spectrum { peaks: None, peak_count_param: None };
    assert!(!needs_peak_picking(&spectrum, true));
    complete_peaks(&mut spectrum, true, None);
    let out = assemble_output(&spectrum, &id);
    assert_eq!(out.peaks, None);
}
