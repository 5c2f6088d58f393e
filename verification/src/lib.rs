pub mod args;
pub mod cleanup;
pub mod clock;
pub mod duration;
pub mod encoder;
pub mod index;
pub mod jobs;
pub mod listing_laws;
pub mod names;
pub mod naming_laws;
pub mod numbers;
pub mod option_laws;
pub mod page;
pub mod page_laws;
pub mod paths;
pub mod pipeline;
pub mod pipeline_laws;
pub mod run_laws;
pub mod series;
pub mod site_laws;
pub mod state;
pub mod table;
pub mod text;
pub mod text_laws;
