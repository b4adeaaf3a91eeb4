//! Converts typed values to and from the object model of a dynamically
//! typed host runtime (Clojure's persistent collections on the JVM).
//!
//! The library works on plain data: [`Object`] mirrors a host value,
//! [`Value`] is a typed value, and [`Schema`] says which typed shape a
//! decode asks for. [`to_object`] encodes, [`from_object`] decodes, and
//! [`ArrayList`] stages the elements of one persistent collection.
pub mod builder;
pub mod de;
pub mod error;
pub mod laws;
pub mod object;
pub mod schema;
pub mod ser;
pub mod value;

pub use builder::ArrayList;
pub use de::{from_object, SeqCursor};
pub use error::{Error, Kind};
pub use object::{ObjView, Object};
pub use schema::{Schema, SchemaView, VariantSchema, VariantView};
pub use ser::{get_keyword, to_object, variant_map};
pub use value::{ValView, Value};
