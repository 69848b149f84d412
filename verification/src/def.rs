//! Declarative definitions of primitives, and their documentation.

use std::collections::HashMap;

use vstd::prelude::*;

use crate::object::Arity;
use crate::signals::{plain, Signal};
use crate::text::{join, joined, lines, lines_from, texts};
use crate::value::Value;

verus! {

/// Statically known return type of a primitive.
#[derive(Clone, Copy, PartialEq, Eq, Structural, Debug)]
pub enum RetType {
    /// Not statically known.
    Unknown,
    Int,
    Float,
    Bool,
    String,
    MutableString,
    Keyword,
    Bytes,
    MutableBytes,
    Array,
    MutableArray,
    Struct,
    MutableStruct,
    LSet,
    MutableSet,
    Fiber,
    /// The first argument.
    FirstArg,
}

/// Declared region behaviour of a primitive.
#[derive(PartialEq, Eq, Debug)]
pub enum RegionEffect {
    /// The result is an immediate and no argument is stored.
    Immediate,
    /// A heap result is born in the call's own region.
    Fresh,
    /// A heap result lives in an argument's region.
    PassThrough,
    /// The listed arguments may be stored without a count.
    Stores { args: Vec<usize> },
    /// The listed arguments go to another fiber through a channel.
    Sends { args: Vec<usize> },
    /// Every store is counted where it happens.
    Funnel,
    /// No argument is stored; the result may live anywhere.
    Opaque,
    /// The listed arguments are installed in another fiber's signal slot.
    Delivers { args: Vec<usize> },
    /// Examined, and none of the other claims holds.
    Mixed,
    /// Not examined.
    Unknown,
}

impl RegionEffect {
    /// The same claim.
    pub open spec fn same(self, other: RegionEffect) -> bool {
        match (self, other) {
            (RegionEffect::Stores { args: a }, RegionEffect::Stores { args: b }) => a@ == b@,
            (RegionEffect::Sends { args: a }, RegionEffect::Sends { args: b }) => a@ == b@,
            (RegionEffect::Delivers { args: a }, RegionEffect::Delivers { args: b }) => a@ == b@,
            _ => self == other,
        }
    }

    /// Copy of the claim.
    pub fn copy(&self) -> (r: RegionEffect)
        ensures
            r.same(*self),
    {
        match self {
            RegionEffect::Immediate => RegionEffect::Immediate,
            RegionEffect::Fresh => RegionEffect::Fresh,
            RegionEffect::PassThrough => RegionEffect::PassThrough,
            RegionEffect::Stores { args } => RegionEffect::Stores { args: args.clone() },
            RegionEffect::Sends { args } => RegionEffect::Sends { args: args.clone() },
            RegionEffect::Funnel => RegionEffect::Funnel,
            RegionEffect::Opaque => RegionEffect::Opaque,
            RegionEffect::Delivers { args } => RegionEffect::Delivers { args: args.clone() },
            RegionEffect::Mixed => RegionEffect::Mixed,
            RegionEffect::Unknown => RegionEffect::Unknown,
        }
    }

    /// Whether nobody has looked at the primitive.
    pub fn is_unknown(&self) -> (r: bool)
        ensures
            r == (*self is Unknown),
    {
        match self {
            RegionEffect::Unknown => true,
            _ => false,
        }
    }
}

/// Declarative definition of a primitive.
pub struct PrimitiveDef {
    /// The name it is called by.
    pub name: &'static str,
    /// Which signals it may emit.
    pub signal: Signal,
    /// How many arguments it takes.
    pub arity: Arity,
    /// One-line description.
    pub doc: &'static str,
    /// Parameter names.
    pub params: Vec<&'static str>,
    pub category: &'static str,
    /// Runnable example.
    pub example: &'static str,
    /// Additional names.
    pub aliases: Vec<&'static str>,
    /// Declared region behaviour.
    pub effect: RegionEffect,
    /// The arguments that a fresh result embeds.
    pub embeds: Vec<usize>,
    /// Statically known return type.
    pub ret: RetType,
    /// The result is an element moved out of a container argument.
    pub moves_out: bool,
    /// Every heap result already carries the caller's reference.
    pub result_minted: bool,
}

/// The contents of a list of literals.
pub open spec fn literals(parts: Seq<&'static str>) -> Seq<Seq<char>> {
    Seq::new(parts.len(), |i: int| parts[i]@)
}

/// Copy a list of literals.
pub fn copy_literals(parts: &Vec<&'static str>) -> (r: Vec<&'static str>)
    ensures
        r@ == parts@,
{
    let mut out: Vec<&'static str> = Vec::new();
    let mut i: usize = 0;
    while i < parts.len()
        invariant
            i <= parts@.len(),
            out@ == parts@.take(i as int),
        decreases parts.len() - i,
    {
        out.push(parts[i]);
        i = i + 1;
        assert(out@ =~= parts@.take(i as int));
    }
    assert(parts@.take(i as int) =~= parts@);
    out
}

impl PrimitiveDef {
    /// A definition without a name: silent, nullary, unexamined.
    pub fn blank() -> (r: PrimitiveDef)
        ensures
            r.name@ == ""@,
            r.signal == plain(0),
            r.arity == Arity::Exact(0),
            r.doc@ == ""@,
            r.params@.len() == 0,
            r.category@ == ""@,
            r.example@ == ""@,
            r.aliases@.len() == 0,
            r.effect is Unknown,
            r.embeds@.len() == 0,
            r.ret == RetType::Unknown,
            !r.moves_out,
            !r.result_minted,
    {
        PrimitiveDef {
            name: "",
            signal: Signal::silent(),
            arity: Arity::Exact(0),
            doc: "",
            params: Vec::new(),
            category: "",
            example: "",
            aliases: Vec::new(),
            effect: RegionEffect::Unknown,
            embeds: Vec::new(),
            ret: RetType::Unknown,
            moves_out: false,
            result_minted: false,
        }
    }

    /// A silent definition that takes any arguments and does nothing.
    pub fn noop() -> (r: PrimitiveDef)
        ensures
            r.name@ == "<noop>"@,
            r.signal == plain(0),
            r.arity == Arity::AtLeast(0),
            r.doc@ == ""@,
            r.params@.len() == 0,
            r.category@ == ""@,
            r.example@ == ""@,
            r.aliases@.len() == 0,
            r.effect is Unknown,
            r.embeds@.len() == 0,
            r.ret == RetType::Unknown,
            !r.moves_out,
            !r.result_minted,
    {
        let mut d = PrimitiveDef::blank();
        d.name = "<noop>";
        d.arity = Arity::AtLeast(0);
        d
    }

    /// The same definition.
    pub open spec fn same(self, other: PrimitiveDef) -> bool {
        &&& self.name == other.name
        &&& self.signal == other.signal
        &&& self.arity == other.arity
        &&& self.doc == other.doc
        &&& self.params@ == other.params@
        &&& self.category == other.category
        &&& self.example == other.example
        &&& self.aliases@ == other.aliases@
        &&& self.effect.same(other.effect)
        &&& self.embeds@ == other.embeds@
        &&& self.ret == other.ret
        &&& self.moves_out == other.moves_out
        &&& self.result_minted == other.result_minted
    }

    /// Copy of the definition.
    pub fn copy(&self) -> (r: PrimitiveDef)
        ensures
            r.same(*self),
    {
        PrimitiveDef {
            name: self.name,
            signal: self.signal,
            arity: self.arity,
            doc: self.doc,
            params: copy_literals(&self.params),
            category: self.category,
            example: self.example,
            aliases: copy_literals(&self.aliases),
            effect: self.effect.copy(),
            embeds: self.embeds.clone(),
            ret: self.ret,
            moves_out: self.moves_out,
            result_minted: self.result_minted,
        }
    }

    /// The names the primitive goes by, its own first.
    pub open spec fn names(self) -> Seq<Seq<char>> {
        seq![self.name@] + literals(self.aliases@)
    }

    /// The primitive goes by `name`.
    pub open spec fn answers(self, name: Seq<char>) -> bool {
        self.names().contains(name)
    }

    /// The documentation of the primitive.
    pub open spec fn documented_by(self, d: Doc) -> bool {
        &&& d.name == self.name
        &&& d.doc == self.doc
        &&& d.params@ == self.params@
        &&& d.arity == self.arity
        &&& d.signal == self.signal
        &&& d.category == self.category
        &&& d.example == self.example
        &&& d.aliases@ == self.aliases@
    }

    /// The documentation of the primitive.
    pub fn documentation(&self) -> (r: Doc)
        ensures
            self.documented_by(r),
    {
        Doc {
            name: self.name,
            doc: self.doc,
            params: copy_literals(&self.params),
            arity: self.arity,
            signal: self.signal,
            category: self.category,
            example: self.example,
            aliases: copy_literals(&self.aliases),
        }
    }
}

/// Documentation of a named form.
pub struct Doc {
    pub name: &'static str,
    pub doc: &'static str,
    pub params: Vec<&'static str>,
    pub arity: Arity,
    pub signal: Signal,
    pub category: &'static str,
    pub example: &'static str,
    pub aliases: Vec<&'static str>,
}

/// Each part between `before` and `after`, one behind the other.
pub open spec fn wrapped(parts: Seq<Seq<char>>, before: Seq<char>, after: Seq<char>) -> Seq<char>
    decreases parts.len(),
{
    if parts.len() == 0 {
        Seq::empty()
    } else {
        wrapped(parts.drop_last(), before, after) + before + parts.last() + after
    }
}

impl Doc {
    /// How the documentation reads: the signature, then the description, the
    /// arity, the example and the aliases, each left out where it is empty.
    pub open spec fn text(self) -> Seq<char> {
        let described = if self.doc@.len() == 0 {
            Seq::empty()
        } else {
            "  "@ + self.doc@ + "\n"@
        };
        let shown = if self.example@.len() == 0 {
            Seq::empty()
        } else {
            "  example:\n"@ + wrapped(lines_from(self.example@, 0), "    "@, "\n"@)
        };
        let also = if self.aliases@.len() == 0 {
            Seq::empty()
        } else {
            "  aliases: "@ + joined(literals(self.aliases@), ", "@) + "\n"@
        };
        "("@ + self.name@ + wrapped(literals(self.params@), " "@, ""@) + ")\n"@ + described + ("  arity: "@
            + self.arity.text() + "\n"@) + shown + also
    }

    /// Format as a human-readable doc string.
    pub fn format(&self) -> (r: String)
        ensures
            r@ == self.text(),
    {
        proof {
            reveal_strlit("");
        }
        let mut out = "(".to_string();
        out.append(self.name);
        let params = owned(&self.params);
        push_wrapped(&mut out, &params, " ", "");
        out.append(")\n");
        if self.doc.unicode_len() > 0 {
            out.append("  ");
            out.append(self.doc);
            out.append("\n");
        }
        let ghost a = "("@ + self.name@ + wrapped(literals(self.params@), " "@, ""@) + ")\n"@;
        let ghost described = if self.doc@.len() == 0 {
            Seq::empty()
        } else {
            "  "@ + self.doc@ + "\n"@
        };
        assert(out@ =~= a + described);
        out.append("  arity: ");
        self.arity.push_text(&mut out);
        out.append("\n");
        let ghost b = a + described + ("  arity: "@ + self.arity.text() + "\n"@);
        assert(out@ =~= b);
        if self.example.unicode_len() > 0 {
            out.append("  example:\n");
            let parts = lines(self.example);
            push_wrapped(&mut out, &parts, "    ", "\n");
        }
        let ghost shown = if self.example@.len() == 0 {
            Seq::empty()
        } else {
            "  example:\n"@ + wrapped(lines_from(self.example@, 0), "    "@, "\n"@)
        };
        assert(out@ =~= b + shown);
        if self.aliases.len() > 0 {
            out.append("  aliases: ");
            let parts = owned(&self.aliases);
            out.append(join(&parts, ", ").as_str());
            out.append("\n");
        }
        assert(out@ =~= self.text());
        out
    }

    /// The same documentation.
    pub open spec fn same(self, other: Doc) -> bool {
        &&& self.name == other.name
        &&& self.doc == other.doc
        &&& self.params@ == other.params@
        &&& self.arity == other.arity
        &&& self.signal == other.signal
        &&& self.category == other.category
        &&& self.example == other.example
        &&& self.aliases@ == other.aliases@
    }
}

/// Owned copies of some literals.
pub fn owned(parts: &Vec<&'static str>) -> (r: Vec<String>)
    ensures
        texts(r@) == literals(parts@),
{
    let mut out: Vec<String> = Vec::new();
    let mut i: usize = 0;
    while i < parts.len()
        invariant
            i <= parts@.len(),
            out@.len() == i,
            forall|k: int| 0 <= k < i ==> (#[trigger] out@[k])@ == parts@[k]@,
        decreases parts.len() - i,
    {
        out.push(parts[i].to_string());
        i = i + 1;
    }
    assert(texts(out@) =~= literals(parts@));
    out
}

fn push_wrapped(out: &mut String, parts: &Vec<String>, before: &str, after: &str)
    ensures
        final(out)@ == old(out)@ + wrapped(texts(parts@), before@, after@),
{
    let ghost start = out@;
    let ghost all = texts(parts@);
    let mut i: usize = 0;
    assert(all.take(0) =~= Seq::empty());
    while i < parts.len()
        invariant
            i <= parts@.len(),
            all == texts(parts@),
            out@ == start + wrapped(all.take(i as int), before@, after@),
        decreases parts.len() - i,
    {
        assert(all.take(i + 1).drop_last() =~= all.take(i as int));
        out.append(before);
        out.append(parts[i].as_str());
        out.append(after);
        i = i + 1;
        assert(out@ =~= start + wrapped(all.take(i as int), before@, after@));
    }
    assert(all.take(i as int) =~= all);
}

/// What the registration of primitives says of each name, by its symbol.
pub struct PrimitiveMeta {
    pub signals: HashMap<u32, Signal>,
    pub arities: HashMap<u32, Arity>,
    pub docs: HashMap<u32, Doc>,
    /// The primitive as a value.
    pub functions: HashMap<u32, Value>,
    pub effects: HashMap<u32, RegionEffect>,
    pub ret_types: HashMap<u32, RetType>,
    pub embeds: HashMap<u32, Vec<usize>>,
    pub moves_out: HashMap<u32, bool>,
}

impl PrimitiveMeta {
    /// Nothing registered.
    pub open spec fn empty_meta(self) -> bool {
        &&& self.signals@.dom() == Set::<u32>::empty()
        &&& self.arities@.dom() == Set::<u32>::empty()
        &&& self.docs@.dom() == Set::<u32>::empty()
        &&& self.functions@.dom() == Set::<u32>::empty()
        &&& self.effects@.dom() == Set::<u32>::empty()
        &&& self.ret_types@.dom() == Set::<u32>::empty()
        &&& self.embeds@.dom() == Set::<u32>::empty()
        &&& self.moves_out@.dom() == Set::<u32>::empty()
    }

    /// Nothing registered yet.
    pub fn new() -> (r: PrimitiveMeta)
        ensures
            r.empty_meta(),
    {
        let r = PrimitiveMeta {
            signals: HashMap::new(),
            arities: HashMap::new(),
            docs: HashMap::new(),
            functions: HashMap::new(),
            effects: HashMap::new(),
            ret_types: HashMap::new(),
            embeds: HashMap::new(),
            moves_out: HashMap::new(),
        };
        assert(r.signals@.dom() =~= Set::<u32>::empty());
        assert(r.arities@.dom() =~= Set::<u32>::empty());
        assert(r.docs@.dom() =~= Set::<u32>::empty());
        assert(r.functions@.dom() =~= Set::<u32>::empty());
        assert(r.effects@.dom() =~= Set::<u32>::empty());
        assert(r.ret_types@.dom() =~= Set::<u32>::empty());
        assert(r.embeds@.dom() =~= Set::<u32>::empty());
        assert(r.moves_out@.dom() =~= Set::<u32>::empty());
        r
    }

    /// What the metadata says of a symbol is what `def`, the primitive of this
    /// number, declares.
    pub open spec fn says(self, id: u32, def: PrimitiveDef, number: u32) -> bool {
        &&& self.signals@.dom().contains(id) && self.signals@[id] == def.signal
        &&& self.arities@.dom().contains(id) && self.arities@[id] == def.arity
        &&& self.functions@.dom().contains(id) && self.functions@[id] == Value::native_fn(number)
        &&& self.effects@.dom().contains(id) && self.effects@[id].same(def.effect)
        &&& self.ret_types@.dom().contains(id) && self.ret_types@[id] == def.ret
        &&& self.embeds@.dom().contains(id) && self.embeds@[id]@ == def.embeds@
        &&& self.moves_out@.dom().contains(id) && self.moves_out@[id] == def.moves_out
    }

    /// The metadata says nothing of a symbol.
    pub open spec fn silent_on(self, id: u32) -> bool {
        &&& !self.signals@.dom().contains(id)
        &&& !self.arities@.dom().contains(id)
        &&& !self.functions@.dom().contains(id)
        &&& !self.effects@.dom().contains(id)
        &&& !self.ret_types@.dom().contains(id)
        &&& !self.embeds@.dom().contains(id)
        &&& !self.moves_out@.dom().contains(id)
    }

    /// What two metadata say of a symbol is the same.
    pub open spec fn agree(self, other: PrimitiveMeta, id: u32) -> bool {
        &&& self.signals@.dom().contains(id) == other.signals@.dom().contains(id)
        &&& self.signals@[id] == other.signals@[id]
        &&& self.arities@.dom().contains(id) == other.arities@.dom().contains(id)
        &&& self.arities@[id] == other.arities@[id]
        &&& self.functions@.dom().contains(id) == other.functions@.dom().contains(id)
        &&& self.functions@[id] == other.functions@[id]
        &&& self.effects@.dom().contains(id) == other.effects@.dom().contains(id)
        &&& self.effects@[id] == other.effects@[id]
        &&& self.ret_types@.dom().contains(id) == other.ret_types@.dom().contains(id)
        &&& self.ret_types@[id] == other.ret_types@[id]
        &&& self.embeds@.dom().contains(id) == other.embeds@.dom().contains(id)
        &&& self.embeds@[id] == other.embeds@[id]
        &&& self.moves_out@.dom().contains(id) == other.moves_out@.dom().contains(id)
        &&& self.moves_out@[id] == other.moves_out@[id]
    }

    /// Let a symbol stand for primitive `number`.
    pub fn enter(&mut self, id: u32, def: &PrimitiveDef, number: u32)
        ensures
            final(self).says(id, *def, number),
            forall|other: u32| other != id ==> #[trigger] final(self).agree(*old(self), other),
            final(self).docs@ == old(self).docs@,
    {
        broadcast use vstd::std_specs::hash::group_hash_axioms;

        self.signals.insert(id, def.signal);
        self.arities.insert(id, def.arity);
        self.functions.insert(id, Value::native_fn(number));
        self.effects.insert(id, def.effect.copy());
        self.ret_types.insert(id, def.ret);
        self.embeds.insert(id, def.embeds.clone());
        self.moves_out.insert(id, def.moves_out);
    }
}

impl Default for PrimitiveMeta {
    fn default() -> (r: PrimitiveMeta)
        ensures
            r.empty_meta(),
    {
        PrimitiveMeta::new()
    }
}

} // verus!
