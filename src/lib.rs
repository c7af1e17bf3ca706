pub mod date;
pub mod session;
pub mod store;
pub mod summary;

pub use date::Date;
pub use session::{Session, StoreError};
pub use store::{add_session, load_sessions};
pub use summary::{summary_between, summary_for_date, summary_today, summary_week, Summary};
