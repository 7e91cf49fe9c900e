use vstd::prelude::*;

pub mod codec;
pub mod cursor;
pub mod de;
pub mod ds;
pub mod error;
pub mod num;
pub mod object;
pub mod roblox;

pub use codec::SerDes;
pub use cursor::{overwrite, CursorView, SquashCursor};
pub use de::{Deserializer, SeqState, MAX_DEPTH};
pub use ds::bool_tuple::{BoolTuple2, BoolTuple3, BoolTuple4, BoolTuple5, BoolTuple6, BoolTuple7, BoolTuple8};
pub use error::{CoreResult, Error, IoError, Result};
pub use num::ux::{i24, i40, i48, i56, u24, u40, u48, u56, LeBytes};
pub use num::vlq::Vlq;
pub use num::{SquashNumber, Zero};
pub use object::{deserialize, serialize, SquashObject};
pub use roblox::axes::Axes;
pub use roblox::catalog_search_params::CatalogSearchParams;
pub use roblox::cframe::{Cframe, CframeRotSegments};
pub use roblox::color::{Color3, ColorSequence, ColorSequenceKeypoint};
pub use roblox::date_time::DateTime;
pub use roblox::enum_item::EnumItem;
pub use roblox::faces::Faces;
pub use roblox::font::Font;
pub use roblox::number::{NumberRange, NumberSequence, NumberSequenceKeypoint};
pub use roblox::path_waypoint::PathWaypoint;
pub use roblox::ray::Ray;
pub use roblox::raycast_params::RaycastParams;
pub use roblox::rect::Rect;
pub use roblox::region3::{Region3, Region3int16};
pub use roblox::udim::{Udim, Udim2};
pub use roblox::vector::{Vector2, Vector2int16, Vector3, Vector3int16};
