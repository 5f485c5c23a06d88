use vstd::prelude::*;

pub mod flavors;
pub mod stock_table;
pub mod robot_orders_table;
pub mod order_table;
pub mod network;
pub mod messages;
pub mod gateway;
pub mod robot;
pub mod screen;
pub mod screen_orders;
pub mod text;

verus! {

/// Number of grams of each flavor available system-wide at startup.
pub const INITIAL_GRAMS_AMOUNT: i32 = 10000;

/// Time units of preparation per gram of ice cream.
pub const SLEEP_FACTOR: u64 = 10;

/// Number of orders a screen launches at startup.
pub const FIRST_BATCH: usize = 1;

/// Number of new orders a screen launches for each finished one.
pub const MULTIPLICATION_BATCH: usize = 2;

} // verus!
