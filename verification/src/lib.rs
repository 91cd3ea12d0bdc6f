//! Read-only parsers, catalog rules and image assembly for DHO client resource archives.

pub mod bytes;
pub mod block;

pub use block::{
    scan_data_file, BlockDecodeError, BlockLocation, BlockScanError, DataSegment, MwcBlock,
    ScannedDataFile, UnresolvedGap, BLOCK_HEADER_SIZE, MWC_MAGIC,
};
pub mod index;
pub mod inline;

pub use index::{ArchiveHeader, IndexParseError, IndexRecord, IndexedArchive, HEADER_SIZE, RECORD_SIZE};
pub use inline::{InlineBlockEntry, InlineBlockTable, InlineBlockTableError};
pub mod archive;

pub use archive::{
    ArchiveBlock, ArchiveBlockDecodeError, ArchiveBlockKind,
    ArchiveDiagnostic, ArchiveLayout, RawBlock,
};
pub mod text;
pub mod catalog;

pub use catalog::{
    classify_record, reservation_candidate, AssemblyPlan, AssemblyRule, CatalogRecordKey,
    CategoryPath, CategorySource, LayeredAssemblyRule, RecordClassification,
    ReservationSuggestion, TileOrder, VerificationStatus,
};
pub mod rgba;

pub use rgba::{ImageAssemblyError, PixelDecodeError, PngEncodeError, RgbaImage, ThumbnailError};
pub mod extract;

pub use extract::{
    ArchivePrefix, ArchivePrefixError, ExtractError, ExtractedAssembly, ExtractedAssemblyThumbnail,
    ExtractedResource, ExtractedThumbnail, RawArchiveLayout, RawImageRecord, RawImageSpec,
    RawImageVariant, RawPixelFormat, RawResourceKey, ResourceKey,
};
pub mod snapshot;
pub mod cache;
pub mod client;
pub mod search;
pub mod session;
pub mod baseline;
pub mod export;
pub mod curator;
pub mod installation;
pub mod messages;

pub use snapshot::{
    indexed_asset_entries, raw_asset_entries, AssetSnapshot, AssetSnapshotChange,
    AssetSnapshotCompareError, AssetSnapshotDiff, AssetSnapshotEntry, AssetSourceKind,
    ASSET_SNAPSHOT_FORMAT_VERSION,
};
