//! Inline text layout and display-list construction for a minimal text shell.
pub mod context;
pub mod display_list;
pub mod fragment;
pub mod geometry;
pub mod inline;
pub mod units;
pub mod widget;
