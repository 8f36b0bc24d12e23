pub mod lottery;
