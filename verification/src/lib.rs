pub mod ammo;
pub mod bytes;
pub mod error;
pub mod lines;
pub mod parse;
pub mod pipeline;
pub mod proc;
pub mod url;

pub use ammo::{make_bullet_data_from_log_record, render_bullet, BulletData, StoredBullet};
pub use error::ProcError;
pub use lines::{filter_lines, get_lines_count, process_lines, Chained, GenericReader, ReadByLine};
pub use parse::{
    make_record_from_plain_line, parse_log_line, parse_tab_separated_log_line,
    parse_tskv_log_line, LogRecord,
};
pub use pipeline::{make_processor, process_log_line, run_pipeline, Algo, Processor};
pub use proc::{AmmoProcessor, MethodS, ReserviorSampling, RoundRobin, WriteAmmo};
pub use url::{get_cgi_param_value_naive, get_host_port_resource_from_url};
