pub mod commit;
pub mod models;
pub mod record;
pub mod update;
