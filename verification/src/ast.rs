pub mod comment;
pub mod ddl;
pub mod dml;
pub mod dql;
pub mod sql;
