//! Core of a region-counted Lisp runtime: value words, signals, templates,
//! the region heap and the fiber machinery built on them.

mod bits;
pub mod bytes;
pub mod capturemask;
pub mod chan;
pub mod clock;
pub mod concurrency;
pub mod ctx;
pub mod def;
pub mod error;
pub mod ffi;
pub mod ffiprims;
pub mod fiber;
pub mod fiber_introspect;
pub mod fibers;
pub mod fibertable;
pub mod fields;
mod fxmap;
pub mod heap;
pub mod introspection;
pub mod laws;
pub mod lir;
pub mod loading;
pub mod materialize;
pub mod moduleinit;
pub mod modules;
pub mod object;
pub mod pagepool;
pub mod params;
pub mod parse;
pub mod prim;
pub mod refcount;
pub mod regionmap;
pub mod registration;
pub mod registry;
pub mod resume;
pub mod runtime;
pub mod scalar;
pub mod searchpath;
pub mod sendarrive;
pub mod sendde;
pub mod sendmirror;
pub mod sendorder;
pub mod sendplain;
pub mod sendreach;
pub mod sendscript;
pub mod sendser;
pub mod sendtrip;
pub mod sendvalue;
pub mod signalbits;
pub mod signals;
pub mod span;
pub mod stack;
pub mod stdio;
pub mod symbol;
pub mod tables;
pub mod tailcall;
pub mod template;
pub mod text;
pub mod token;
pub mod traitmethods;
pub mod value;
pub mod vfs;
pub mod vm;
pub mod vmsignal;
