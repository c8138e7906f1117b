//! A state computer for stream analytics: append-only journals of fixed-size
//! records, versioned slot stores, stage pipelines and their combinators,
//! windowed and partitioned reducers, and an ordered index over a journal.
//! Each operation carries a contract proved by Verus.

pub mod aggregator;
pub mod direct_index;
pub mod journal;
pub mod keyed;
pub mod latency;
pub mod laws;
pub mod op_counter;
pub mod pipe;
pub mod runtime;
pub mod slot_store;
pub mod stage;
pub mod stage_engine;
pub mod window;

pub use aggregator::{Aggregator, AggregatorFrom, AggregatorPartition, AggregatorTo};
pub use direct_index::{DirectIndex, KeyBound};
pub use journal::{JournalStore, JournalStoreOptions, StoreJournalReader};
pub use keyed::{dedup_by, delta, stateful, track_prev_by_hashmap, DedupBy, Delta, Message, Stateful, TrackPrevByHashmap};
pub use op_counter::OpCounter;
pub use pipe::{
    filter, inspect, progress, track_prev, windowed, Filter, Inspect, MapStage, Progress,
    TrackPrev, WithPrev,
};
pub use slot_store::{SlotStore, SlotStoreOptions};
pub use stage::{OutputCollector, Pipeline, Record, Stage, StageExt, StageOutput};
pub use stage_engine::{Passthrough, StageEngine};
pub use window::{Window, WindowFrom, WindowTo};
