pub mod axes;
pub mod catalog_search_params;
pub mod cframe;
pub mod color;
pub mod date_time;
pub mod enum_item;
pub mod faces;
pub mod font;
pub mod number;
pub mod path_waypoint;
pub mod ray;
pub mod raycast_params;
pub mod rect;
pub mod region3;
pub mod udim;
pub mod vector;
