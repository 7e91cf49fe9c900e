pub mod bool_tuple;
