pub mod text;
pub mod utf16;
pub mod error;
pub mod names;
pub mod dom;
pub mod attributes;
pub mod attr_nodes;
pub mod named_node_map;
pub mod class_list;
pub mod anchor_form;
pub mod collections;
pub mod character_data;
pub mod computed_style;
pub mod document;
pub mod activation;
pub mod events;
pub mod abort;
pub mod custom_elements;
