pub mod digits;
pub mod things_id;
pub mod matching;
pub mod id_order;
