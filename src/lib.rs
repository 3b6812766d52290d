pub mod archive;
pub mod error;
pub mod ledger;
pub mod lifecycle;
pub mod nyazoom_headers;
pub mod record;
pub mod snapshot;
pub mod util;

pub use archive::{ArchiveBuilder, PartAction, Phase, UploadError};
pub use ledger::{Ledger, NotFound};
pub use nyazoom_headers::ForwardedFor;
pub use record::{RecordView, UploadRecord};
