#![allow(non_camel_case_types)]

pub mod structures;
pub mod text;
pub mod database;
pub mod db_lists;
pub mod db_settings;
pub mod db_proposals;
pub mod db_responses;
pub mod membership;
pub mod lists;
pub mod suggest;
pub mod ping;
pub mod configure;
pub mod proposing;
pub mod responses;
pub mod purge;
pub mod laws;
pub mod startup;
pub mod pickle_import;
pub mod integrity;
pub mod import_laws;
pub mod decision_laws;
