pub mod merger;
