use selective_scan::chunk::ColumnChunkData;
use selective_scan::error::ErrorCode;
use selective_scan::metadata::{ColumnMeta, PageLocation, ProjectionMask, RowGroupMetaData};
use selective_scan::row_group::{InMemoryRowGroup, InMemoryStorage};
use selective_scan::selection::{RowSelection, RowSelector};

/// A file image holding one byte per offset, so every range read is
/// recognisable by its position.
fn file_image(len: usize) -> Vec<u8> {
    (0..len).map(|i| (i % 251) as u8).collect()
}

fn page(offset: usize, size: usize, first_row: usize) -> PageLocation {
    PageLocation {
        offset,
        compressed_page_size: size,
        first_row_index: first_row,
    }
}

/// The scenario's row group: 2 columns, 4 pages of 100 rows each,
/// page-location starts [0, 400, 800, 1200] per column, both columns'
/// byte ranges starting at 0.
fn scenario_row_group() -> InMemoryRowGroup {
    let columns = vec![
        ColumnMeta {
            start: 0,
            length: 1600,
        },
        ColumnMeta {
            start: 0,
            length: 1600,
        },
    ];
    let locs: Vec<PageLocation> = vec![
        page(0, 400, 0),
        page(400, 400, 100),
        page(800, 400, 200),
        page(1200, 400, 300),
    ];
    let metadata = RowGroupMetaData {
        columns,
        num_rows: 400,
    };
    InMemoryRowGroup::new(metadata, Some(vec![locs.clone(), locs]))
}

fn rows_150_to_250() -> RowSelection {
    RowSelection::new(vec![
        RowSelector {
            row_count: 150,
            skip: true,
        },
        RowSelector {
            row_count: 100,
            skip: false,
        },
        RowSelector {
            row_count: 150,
            skip: true,
        },
    ])
}

fn sparse_entries(chunk: &ColumnChunkData) -> Vec<(usize, Vec<u8>)> {
    match chunk {
        ColumnChunkData::Sparse { entries, .. } => entries
            .iter()
            .map(|(off, b)| (*off, b.to_vec()))
            .collect(),
        ColumnChunkData::Dense { .. } => panic!("expected a sparse chunk"),
    }
}

#[test]
fn selective_fetch_reads_exactly_the_needed_pages() {
    let file = file_image(1600);
    let mut storage = InMemoryStorage::new(file.clone());
    let mut rg = scenario_row_group();
    let selection = rows_150_to_250();
    let projection = ProjectionMask::all();
    rg.fetch("t", &mut storage, &projection, Some(&selection))
        .unwrap();
    // Rows [150, 250) touch pages 2 and 3 (rows 100..300); the first
    // page starts at the column start, so there is no prefix range.
    // Two ranges per column, over two columns.
    assert_eq!(storage.read_count(), 4);
    for i in 0..2 {
        let mut it = rg.column_chunks(i).unwrap();
        let cfg = it.next().unwrap();
        let entries = sparse_entries(&cfg.chunk);
        let offsets: Vec<usize> = entries.iter().map(|(off, _)| *off).collect();
        assert_eq!(offsets, vec![400, 800]);
        for (off, bytes) in &entries {
            assert_eq!(bytes.len(), 400);
            assert_eq!(&bytes[..], &file[*off..*off + 400]);
        }
    }
}

#[test]
fn refetch_issues_no_reads() {
    let file = file_image(1600);
    let mut storage = InMemoryStorage::new(file);
    let mut rg = scenario_row_group();
    let selection = rows_150_to_250();
    let projection = ProjectionMask::all();
    rg.fetch("t", &mut storage, &projection, Some(&selection))
        .unwrap();
    let after_first = storage.read_count();
    assert!(after_first > 0);
    rg.fetch("t", &mut storage, &projection, Some(&selection))
        .unwrap();
    assert_eq!(storage.read_count(), after_first);
}

#[test]
fn fetch_is_incremental_per_column() {
    let file = file_image(1600);
    let mut storage = InMemoryStorage::new(file);
    let mut rg = scenario_row_group();
    let selection = rows_150_to_250();
    let first_column_only = ProjectionMask::leaves(2, &vec![0]);
    rg.fetch("t", &mut storage, &first_column_only, Some(&selection))
        .unwrap();
    assert_eq!(storage.read_count(), 2);
    // Widening the projection fetches only the newly projected column.
    let both = ProjectionMask::all();
    rg.fetch("t", &mut storage, &both, Some(&selection)).unwrap();
    assert_eq!(storage.read_count(), 4);
}

#[test]
fn unfetched_column_reports_column_not_fetched() {
    let file = file_image(1600);
    let mut storage = InMemoryStorage::new(file);
    let mut rg = scenario_row_group();
    let selection = rows_150_to_250();
    let first_column_only = ProjectionMask::leaves(2, &vec![0]);
    rg.fetch("t", &mut storage, &first_column_only, Some(&selection))
        .unwrap();
    assert!(rg.column_chunks(0).is_ok());
    assert_eq!(rg.column_chunks(1).err(), Some(ErrorCode::ColumnNotFetched));
}

#[test]
fn full_column_mode_stores_dense_chunks() {
    let file = file_image(3200);
    let columns = vec![
        ColumnMeta {
            start: 0,
            length: 1600,
        },
        ColumnMeta {
            start: 1600,
            length: 1600,
        },
    ];
    let metadata = RowGroupMetaData {
        columns,
        num_rows: 400,
    };
    let mut rg = InMemoryRowGroup::new(metadata, None);
    let mut storage = InMemoryStorage::new(file.clone());
    rg.fetch("t", &mut storage, &ProjectionMask::all(), None)
        .unwrap();
    assert_eq!(storage.read_count(), 2);
    let mut it = rg.column_chunks(1).unwrap();
    let cfg = it.next().unwrap();
    assert_eq!(cfg.row_count, 400);
    assert!(cfg.page_locations.is_none());
    match &*cfg.chunk {
        ColumnChunkData::Dense { offset, data } => {
            assert_eq!(*offset, 1600);
            assert_eq!(&data[..], &file[1600..3200]);
        }
        ColumnChunkData::Sparse { .. } => panic!("expected a dense chunk"),
    }
}

#[test]
fn dense_and_sparse_agree_at_shared_offsets() {
    // The same column fetched fully (dense) and via a selection covering
    // every page (sparse) holds byte-identical content at every offset
    // the sparse chunk records.
    let file = file_image(1600);
    let selection_all = RowSelection::new(vec![RowSelector {
        row_count: 400,
        skip: false,
    }]);
    let mut sparse_rg = scenario_row_group();
    let mut storage = InMemoryStorage::new(file.clone());
    sparse_rg
        .fetch("t", &mut storage, &ProjectionMask::leaves(2, &vec![0]), Some(&selection_all))
        .unwrap();
    let sparse_cfg = sparse_rg.column_chunks(0).unwrap().next().unwrap();

    let mut dense_rg = scenario_row_group();
    let mut storage2 = InMemoryStorage::new(file);
    dense_rg
        .fetch("t", &mut storage2, &ProjectionMask::leaves(2, &vec![0]), None)
        .unwrap();
    let dense_cfg = dense_rg.column_chunks(0).unwrap().next().unwrap();

    let entries = sparse_entries(&sparse_cfg.chunk);
    assert_eq!(entries.len(), 4);
    for (off, bytes) in &entries {
        let from_sparse = sparse_cfg.chunk.get_bytes(*off, bytes.len()).unwrap();
        let from_dense = dense_cfg.chunk.get_bytes(*off, bytes.len()).unwrap();
        assert_eq!(from_sparse.to_vec(), from_dense.to_vec());
    }
}

#[test]
fn dictionary_prefix_is_fetched_when_first_page_starts_late() {
    // The first page starts 100 bytes past the column start: the prefix
    // [start, first page) carries the dictionary page and is fetched
    // alongside any selected data page.
    let file = file_image(900);
    let columns = vec![ColumnMeta {
        start: 0,
        length: 900,
    }];
    let locs = vec![page(100, 400, 0), page(500, 400, 100)];
    let metadata = RowGroupMetaData {
        columns,
        num_rows: 200,
    };
    let mut rg = InMemoryRowGroup::new(metadata, Some(vec![locs]));
    let mut storage = InMemoryStorage::new(file.clone());
    let selection = RowSelection::new(vec![
        RowSelector {
            row_count: 150,
            skip: true,
        },
        RowSelector {
            row_count: 50,
            skip: false,
        },
    ]);
    rg.fetch("t", &mut storage, &ProjectionMask::all(), Some(&selection))
        .unwrap();
    let cfg = rg.column_chunks(0).unwrap().next().unwrap();
    let entries = sparse_entries(&cfg.chunk);
    let offsets: Vec<usize> = entries.iter().map(|(off, _)| *off).collect();
    // Prefix [0, 100) plus the second page [500, 900).
    assert_eq!(offsets, vec![0, 500]);
    assert_eq!(entries[0].1, &file[0..100]);
    assert_eq!(entries[1].1, &file[500..900]);
}

#[test]
fn sparse_lookup_of_unrecorded_offset_is_an_error() {
    let file = file_image(1600);
    let mut storage = InMemoryStorage::new(file);
    let mut rg = scenario_row_group();
    let selection = rows_150_to_250();
    rg.fetch("t", &mut storage, &ProjectionMask::all(), Some(&selection))
        .unwrap();
    let cfg = rg.column_chunks(0).unwrap().next().unwrap();
    assert_eq!(cfg.chunk.get(400).map(|b| b.len()), Ok(400));
    let err = cfg.chunk.get(401).unwrap_err();
    assert_eq!(err, ErrorCode::InvalidOffset);
    assert!(err.is_consistency_violation());
}

#[test]
fn storage_failure_leaves_no_partial_state() {
    // The file is shorter than the column extent, so the batch read
    // fails; no slot may be populated by the failing call.
    let file = file_image(100);
    let columns = vec![ColumnMeta {
        start: 0,
        length: 1600,
    }];
    let metadata = RowGroupMetaData {
        columns,
        num_rows: 400,
    };
    let mut rg = InMemoryRowGroup::new(metadata, None);
    let mut storage = InMemoryStorage::new(file);
    let r = rg.fetch("t", &mut storage, &ProjectionMask::all(), None);
    assert_eq!(r, Err(ErrorCode::StorageError));
    assert_eq!(rg.column_chunks(0).err(), Some(ErrorCode::ColumnNotFetched));
}

#[test]
fn page_reader_sequence_is_one_shot() {
    let file = file_image(1600);
    let mut storage = InMemoryStorage::new(file);
    let mut rg = scenario_row_group();
    rg.fetch("t", &mut storage, &ProjectionMask::all(), None)
        .unwrap();
    let mut it = rg.column_chunks(0).unwrap();
    assert!(it.next().is_some());
    assert!(it.next().is_none());
    assert!(it.next().is_none());
}

#[test]
fn chunk_length_reports_the_full_column_extent() {
    let file = file_image(1600);
    let mut storage = InMemoryStorage::new(file);
    let mut rg = scenario_row_group();
    let selection = rows_150_to_250();
    rg.fetch("t", &mut storage, &ProjectionMask::all(), Some(&selection))
        .unwrap();
    let cfg = rg.column_chunks(0).unwrap().next().unwrap();
    // A sparse chunk still reports the whole column chunk's length.
    assert_eq!(cfg.chunk.len(), 1600);
    assert_eq!(cfg.column, ColumnMeta { start: 0, length: 1600 });
    assert_eq!(cfg.row_count, 400);
    assert_eq!(cfg.page_locations.as_ref().map(|p| p.len()), Some(4));
}

#[test]
fn num_rows_reports_the_fixed_row_count() {
    let rg = scenario_row_group();
    assert_eq!(rg.num_rows(), 400);
}
