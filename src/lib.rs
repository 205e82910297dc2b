//! A small task tracker with verified analytics, a user registry and a few
//! integer and string utilities.
use vstd::prelude::*;

pub mod analytics;
pub mod app;
pub mod clock;
pub mod task;
pub mod text;
pub mod user_manager;
pub mod utils;

pub use analytics::ExactDuration;
pub use app::{AppView, TaskManagerApp, UiEvent};
pub use task::{Task, TaskManager};
pub use user_manager::{User, UserManager};
pub use utils::{
    calculate_fibonacci, calculate_fibonacci_recursive, count_words, factorial, gcd,
    is_palindrome, is_prime, lcm, reverse_string, validate_email,
};

verus! {

} // verus!
