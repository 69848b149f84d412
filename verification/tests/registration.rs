//! The registry of primitives.

use std::hash::{DefaultHasher, Hasher};

use elle_core::def::{PrimitiveDef, PrimitiveMeta, RegionEffect, RetType};
use elle_core::object::Arity;
use elle_core::registration::{
    build_primitive_meta, def_by_name, hash_def_identity, hash_prim_table_identity, intern_primitive_names,
    prim_def, prim_id_of, prim_table_snapshot, register_primitives, DocTable, PrimRegistry,
};
use elle_core::signals::Signal;
use elle_core::symbol::SymbolTable;
use elle_core::tables::{
    callback_defs, chan_defs, fiber_defs, fiber_introspection_defs, introspection_defs, loading_defs,
    memory_defs, mlir_defs, module_defs, stdio_defs, thread_defs, time_defs, unsupported_defs,
};
use elle_core::traitmethods::{collection_defs, sequence_defs};
use elle_core::value::Value;

fn typed(name: &'static str, aliases: Vec<&'static str>, ret: RetType) -> PrimitiveDef {
    let mut d = PrimitiveDef::blank();
    d.name = name;
    d.aliases = aliases;
    d.ret = ret;
    d
}

#[test]
fn typeinfer_ret_types_resolve_through_registry() {
    let table = vec![
        typed("array", vec![], RetType::Array),
        typed("@array", vec![], RetType::MutableArray),
        typed("struct", vec![], RetType::Struct),
        typed("@struct", vec![], RetType::MutableStruct),
        typed("string", vec!["number->string"], RetType::String),
        typed("length", vec![], RetType::Int),
        typed("type", vec![], RetType::Keyword),
        typed("has?", vec!["contains?"], RetType::Bool),
        typed("empty?", vec![], RetType::Bool),
        typed("ptr?", vec!["pointer?"], RetType::Bool),
        typed("string/contains?", vec!["string-contains?"], RetType::Bool),
        typed("string/starts-with?", vec!["string-starts-with?"], RetType::Bool),
        typed("string/ends-with?", vec!["string-ends-with?"], RetType::Bool),
    ];
    let expect = [
        ("array", RetType::Array),
        ("@array", RetType::MutableArray),
        ("struct", RetType::Struct),
        ("@struct", RetType::MutableStruct),
        ("string", RetType::String),
        ("length", RetType::Int),
        ("type", RetType::Keyword),
        ("has?", RetType::Bool),
        ("empty?", RetType::Bool),
        ("contains?", RetType::Bool),
        ("ptr?", RetType::Bool),
        ("pointer?", RetType::Bool),
        ("string/contains?", RetType::Bool),
        ("string-contains?", RetType::Bool),
        ("string/starts-with?", RetType::Bool),
        ("string-starts-with?", RetType::Bool),
        ("string/ends-with?", RetType::Bool),
        ("string-ends-with?", RetType::Bool),
        ("number->string", RetType::String),
    ];
    for (name, ret) in expect {
        let def = match def_by_name(&table, &name.to_string()) {
            Some(def) => def,
            None => panic!("primitive '{}' missing from registry index", name),
        };
        assert_eq!(def.ret, ret, "primitive '{}' (def '{}') return type drifted", name, def.name);
    }
    assert!(
        def_by_name(&table, &"push".to_string()).is_none(),
        "push became a primitive — move its typing to the registry"
    );
    assert!(
        def_by_name(&table, &"put".to_string()).is_none(),
        "put became a primitive — move its typing to the registry"
    );
}

fn all_tables() -> Vec<PrimitiveDef> {
    let mut all = Vec::new();
    for table in [
        chan_defs(),
        thread_defs(),
        fiber_introspection_defs(),
        fiber_defs(),
        introspection_defs(),
        loading_defs(),
        memory_defs(),
        module_defs(),
        time_defs(),
        callback_defs(),
        mlir_defs(),
        stdio_defs(),
        sequence_defs(),
        collection_defs(),
    ] {
        all.extend(table);
    }
    all
}

#[test]
fn every_primitive_declares_an_examined_region_effect() {
    let all = all_tables();
    let undeclared: Vec<&str> =
        all.iter().filter(|def| def.effect == RegionEffect::Unknown).map(|def| def.name).collect();
    assert!(
        undeclared.is_empty(),
        "primitive(s) left at the RegionEffect::Unknown default: {:?}",
        undeclared,
    );
}

fn hash(def: &PrimitiveDef) -> u64 {
    let mut h = DefaultHasher::new();
    hash_def_identity(def, &mut h);
    h.finish()
}

#[test]
fn prim_identity_hash_sensitive_to_name_and_aliases() {
    let mut base = PrimitiveDef::blank();
    base.name = "a";
    let mut renamed = PrimitiveDef::blank();
    renamed.name = "b";
    let mut aliased = PrimitiveDef::blank();
    aliased.name = "a";
    aliased.aliases = vec!["a2"];
    assert_ne!(hash(&base), hash(&renamed), "rename must change the identity");
    assert_ne!(hash(&base), hash(&aliased), "alias change must change the identity");
    assert_eq!(hash(&base), hash(&base), "identity hash is deterministic");
}

#[test]
fn prim_table_identity_deterministic() {
    let fingerprint = || {
        let mut h = DefaultHasher::new();
        hash_prim_table_identity(&all_tables(), &mut h);
        h.finish()
    };
    assert_eq!(fingerprint(), fingerprint());
}

#[test]
fn a_table_with_one_more_alias_has_another_identity() {
    let fingerprint = |defs: &Vec<PrimitiveDef>| {
        let mut h = DefaultHasher::new();
        hash_prim_table_identity(defs, &mut h);
        h.finish()
    };
    let before = all_tables();
    let mut after = all_tables();
    after[0].aliases.push("again");
    assert_ne!(fingerprint(&before), fingerprint(&after));
}

#[test]
fn primitives_are_numbered_once() {
    let mut reg = PrimRegistry::new();
    let a = prim_id_of(&mut reg, 100, &PrimitiveDef::noop());
    let b = prim_id_of(&mut reg, 200, &PrimitiveDef::blank());
    assert_eq!((a, b), (0, 1));
    assert_eq!(prim_id_of(&mut reg, 100, &PrimitiveDef::noop()), a);
    assert_eq!(reg.len(), 2);
    assert_eq!(prim_def(&reg, a).map(|d| d.name), Some("<noop>"));
    assert!(prim_def(&reg, 2).is_none());
    let snapshot = prim_table_snapshot(&reg);
    assert_eq!(snapshot.len(), 2);
    assert_eq!(snapshot[1].name, "");
}

#[test]
fn registering_describes_names_and_aliases() {
    let defs = module_defs();
    let mut docs = DocTable::new();
    let mut symbols = SymbolTable::new();
    let meta: PrimitiveMeta = register_primitives(&mut docs, &mut symbols, &defs);
    assert_eq!(symbols.len(), 3);
    for name in ["import", "import-file", "module/import"] {
        let id = symbols.lookup(&name.to_string()).expect("interned");
        assert_eq!(meta.arities.get(&id.0), Some(&Arity::Exact(1)));
        assert_eq!(meta.signals.get(&id.0), Some(&Signal::fs_errors()));
        assert_eq!(meta.functions.get(&id.0), Some(&Value::native_fn(0)));
        assert_eq!(meta.effects.get(&id.0), Some(&RegionEffect::Opaque));
    }
    assert_eq!(docs.entries.len(), 3);
    let again = build_primitive_meta(&mut symbols, &defs);
    assert_eq!(again.functions.len(), 3);
    intern_primitive_names(&mut symbols, &defs);
    assert_eq!(symbols.len(), 3);
}

#[test]
fn documentation_reads_as_the_prompt_shows_it() {
    let defs = time_defs();
    let text = defs[3].documentation().format();
    assert!(text.contains("time/sleep"));
    assert!(text.contains("Sleep for the specified number of seconds (blocks the thread)"));
}

#[test]
fn names_without_an_operating_system_stay_bound() {
    let stubs = unsupported_defs();
    assert_eq!(stubs.len(), 84);
    assert_eq!((stubs[0].name, stubs[83].name), ("chan", "watch-remove"));
    for d in &stubs {
        assert_eq!((d.arity, d.signal, d.category), (Arity::AtLeast(0), Signal::errors(), "unsupported"));
        assert!(!stdio_defs().iter().any(|s| s.name == d.name));
    }
    let write = &stdio_defs()[3];
    assert_eq!((write.name, &write.aliases, &write.params), ("port/write", &vec!["stream/write"], &vec!["port", "data"]));
    assert_eq!(write.example, "(port/write (port/stdout) \"hello\")");
}
