//! Schema-driven codec for electricity-meter telemetry frames
//! (DLT/645-2007 and the field layouts that share its envelope).

pub mod annotated;
pub mod codec;
pub mod dlt645;
pub mod error;
pub mod frame_645;
pub mod frame_645_dispatch;
pub mod frame_645_items;
pub mod frame_645_layouts;
pub mod frame_fun;
pub mod frame_text;
pub mod frame_values;
pub mod interpreter;
pub mod json_tree;
pub mod length_rule;
pub mod measure_points;
pub mod modbus;
pub mod modbus_parser;
pub mod oad_map;
pub mod ranges;
pub mod schema;
pub mod schema_find;
pub mod schema_update;
pub mod shift;
pub mod text;
pub mod xml_io;
