//! Decision logic of the AionCore backend.

pub mod bootstrap_error;
pub mod device_address;
pub mod external_conversation_report;
pub mod external_report;
pub mod integration;
pub mod integration_laws;
pub mod live_tool_output;
pub mod live_tool_output_history;
pub mod log_cleanup;
pub mod log_date;
pub mod log_date_laws;
pub mod log_filter;
pub mod log_history;
pub mod log_root;
pub mod log_setup_laws;
pub mod log_writer;
pub mod log_writer_laws;
pub mod mindnprogress;
pub mod navigation;
pub mod navigation_error;
pub mod navigation_laws;
pub mod relay;
pub mod report_history;
pub mod report_laws;
pub mod subscription_usage;
pub mod text;
pub mod text_laws;
