pub mod agility;
pub mod flow_aim;
pub mod reading;
pub mod rhythm;
pub mod snap_aim;
pub mod speed;

pub use agility::AgilityEvaluator;
pub use flow_aim::FlowAimEvaluator;
pub use reading::ReadingEvaluator;
pub use rhythm::RhythmEvaluator;
pub use snap_aim::SnapAimEvaluator;
pub use speed::SpeedEvaluator;
