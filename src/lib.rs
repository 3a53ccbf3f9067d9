pub mod error;
pub mod text;
pub mod order;
pub mod extension;
pub mod registry;
pub mod content_type;
pub mod handlers;
pub mod document;
pub mod locator;
pub mod selection;
pub mod names;
pub mod association;
pub mod unsupported;

pub use association::FileAssociation;
pub use unsupported::{
    add_extension_inner, check_full_disk_access_inner, list_file_associations_inner,
    open_full_disk_access_settings_inner, set_default_application_for_extension_inner,
};
