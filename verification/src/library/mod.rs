mod scan;
mod track;

pub use scan::{
    infer_from_folder, is_audio, lemma_scan_folders_path_tiebreak, lemma_scan_folders_sorted_unique,
    lemma_title_key_order_is_dictionary_order, missing_tag, scan_folders,
    concat_all, spec_infer_from_folder, spec_is_audio,
    spec_scan_folders, title_key, title_key_le, track_from_path, FileTags,
};
pub use track::{
    find_track, first_with_path, fresh_tracks, has_path, lemma_first_with_path, lemma_fresh_tracks_again_empty,
    lemma_fresh_tracks_distinct, lemma_fresh_tracks_len,
    matches_filter, spec_display_title, spec_matches_filter, spec_title_or_stem, Track};
