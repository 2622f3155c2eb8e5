//! Verified core of an editor for game data plugins: an ordered set of
//! plugin files is merged record by record, honouring load order, into a
//! conflict index, a coordinate-indexed world grid and a travel graph,
//! while per-plugin edits live in a copy-on-write record store.

mod conflicts;
mod order;
mod plugins;
mod records;
mod search;
mod session;
mod store;
mod tags;
mod text;
mod travel;
mod vecmap;
mod worldgrid;

pub use conflicts::{
    contributors, generate_conflict_map, lemma_contributors_sound, ConflictIndex, PluginRecordIds,
    PluginRecordIdsV,
};
pub use order::{
    conflicting_ids, lemma_lex_total, lemma_lex_trans, lex_le, sort_by_modified, sort_ids, str_le,
};
pub use plugins::{
    eqi_seq, get_path_hash, has_ext, is_plugin_file, is_plugin_name, looks_like_plugin, lower_u32,
    name_has_ext, note_recent, path_hash_of, PluginHandle, PluginHandleV, PluginSet,
};
pub use records::{
    create, create_from_tag, default_body_v, default_record_v, get_unique_id, ident_of,
    unique_id_of, unique_id_of_identity, CellData, CellDataV, CellKey, ConversionFailure, LandData, LandDataV, NpcData,
    NpcDataV, Record, RecordBody, RecordBodyV, RecordIdentity, RecordV, RegionData, RegionDataV,
    Rgb, TravelDest,
};
pub use search::{contains_chars, filter_ids, is_substring, lower_of, matches_search};
pub use session::{
    browser_list, build_records_index, group_ids_by_tag, matching_uids, named_flat, EAppState,
    EModalState, EScale, NRec,
    NamedRecords, NamedRecordsV, RecordViewModel, RecordsData, UiData,
};
pub use store::{
    coherent, has_header, idents_of, lemma_prune_idempotent, pruned, records_by_id, HeaderPolicy,
    IdV, RecordStore, SaveError,
};
pub use tags::{all_tags, get_all_tags, known_tag, ERecordType};
pub use text::str_eq;
pub use travel::{
    add_edge, bucket_of, dest_cell, dest_cell_key, dest_coord, flipped, graph_fold, graph_ok,
    hosts_fold, lemma_travel_edge_dedup, no_reversed, npc_edges, npc_keys_fold, npc_map_fold,
    travel_graph_spec, travel_npc_of, vec_contains, EdgePair, TravelGraph, CELL_SIZE,
};
pub use vecmap::{distinct_seq, DeepEq, VecMap};
pub use worldgrid::{
    bounds_fold, cell_ids_fold, cell_key_of, cell_of, cells_fold, conf_list, enabled_flat,
    ext_cell_of, land_ids_fold, land_key_of, land_of, lands_fold, lemma_bounds_enclose_all,
    lemma_bounds_fold_append, lemma_bounds_fold_grows, lemma_cells_fold_append,
    lemma_grid_bounds_cover, lemma_load_order_override,
    lemma_widen_never_shrinks, region_of, regions_fold, tagged, Bounds, PRec, PluginData,
    PluginDataV, WorldGrid,
};
