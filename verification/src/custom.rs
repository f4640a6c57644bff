//! The extensible dispatch registry: keyed lookup and delegation for the
//! lowering of custom types, extension ops, and native constants.
//!
//! Handlers are opaque plugin objects; the registry only routes to them. A
//! type handler is modelled by the target representation it assigns to its
//! leaf type (the representation is a function of the registration key alone,
//! which identifies the leaf type completely); op and constant handlers are
//! modelled by opaque handles carrying their identity.
//!
//! Registration is last-write-wins: re-registering a key silently discards
//! the previous handler. Constant handlers are tried in registration order.

pub mod angle;
pub mod conversions;
pub mod float;
pub mod prelude;
pub mod tket2;
pub mod types;
pub mod tket2_qir;

use vstd::prelude::*;

use crate::types::{clone_llvm_type, CodegenError, CustomTypeKey, LLVMType, LLVMTypeV};

verus! {

/// The key an extension op handler is registered under: an extension
/// identifier paired with an op name, both modelled as integer identifiers.
#[derive(Clone, Copy, Debug, PartialEq, Eq, Structural)]
pub struct ExtensionOpKey {
    pub extension: u64,
    pub name: u64,
}

/// The opaque handle of a registered extension op handler.
#[derive(Clone, Copy, Debug, PartialEq, Eq, Structural)]
pub struct OpHandler {
    pub id: u64,
}

/// A handler that materialises native constants of one concrete kind:
/// it returns a value exactly for constants whose concrete kind equals
/// `accepts`, and passes on every other constant.
#[derive(Clone, Copy, Debug, PartialEq, Eq, Structural)]
pub struct ConstHandler {
    pub accepts: u64,
    pub id: u64,
}

/// A native constant of the graph IR: `kind` keys the handler set tried for
/// it, `concrete` identifies the concrete constant implementation a handler
/// may recognise.
#[derive(Clone, Copy, Debug, PartialEq, Eq, Structural)]
pub struct NativeConst {
    pub kind: u64,
    pub concrete: u64,
}

/// The registered type handlers, read from the end: the last registration of
/// a key wins.
pub open spec fn type_handler_get(s: Seq<(CustomTypeKey, LLVMType)>, key: CustomTypeKey) -> Option<
    LLVMTypeV,
>
    decreases s,
{
    if s.len() == 0 {
        None
    } else if s.last().0 == key {
        Some(s.last().1@)
    } else {
        type_handler_get(s.drop_last(), key)
    }
}

/// The registered op handlers, read from the end: the last registration of a
/// key wins.
pub open spec fn op_handler_get(s: Seq<(ExtensionOpKey, OpHandler)>, key: ExtensionOpKey) -> Option<
    OpHandler,
>
    decreases s,
{
    if s.len() == 0 {
        None
    } else if s.last().0 == key {
        Some(s.last().1)
    } else {
        op_handler_get(s.drop_last(), key)
    }
}

/// The first handler registered under `konst.kind` that accepts
/// `konst.concrete`, in registration order.
pub open spec fn const_handler_get(s: Seq<(u64, ConstHandler)>, konst: NativeConst) -> Option<
    ConstHandler,
>
    decreases s,
{
    if s.len() == 0 {
        None
    } else if s.first().0 == konst.kind && s.first().1.accepts == konst.concrete {
        Some(s.first().1)
    } else {
        const_handler_get(s.drop_first(), konst)
    }
}

/// A container for the collection of codegen handlers as they are being
/// assembled. Registering any handler silently replaces any other handler
/// registered for the same key.
pub struct CodegenExtsBuilder {
    pub type_handlers: Vec<(CustomTypeKey, LLVMType)>,
    pub op_handlers: Vec<(ExtensionOpKey, OpHandler)>,
    pub const_handlers: Vec<(u64, ConstHandler)>,
}

/// A helper to register codegen extensions: types that implement this trait
/// add each of their handlers to the builder they are given and return the
/// result.
pub trait CodegenExtension {
    /// Adds this extension's handlers to `builder`.
    fn add_extension(self, builder: CodegenExtsBuilder) -> CodegenExtsBuilder;
}

impl CodegenExtsBuilder {
    /// An empty builder, with no handlers registered.
    pub fn new() -> (r: CodegenExtsBuilder)
        ensures
            r.type_handlers@ =~= Seq::<(CustomTypeKey, LLVMType)>::empty(),
            r.op_handlers@ =~= Seq::<(ExtensionOpKey, OpHandler)>::empty(),
            r.const_handlers@ =~= Seq::<(u64, ConstHandler)>::empty(),
    {
        CodegenExtsBuilder {
            type_handlers: Vec::new(),
            op_handlers: Vec::new(),
            const_handlers: Vec::new(),
        }
    }

    /// Forwards to [`CodegenExtension::add_extension`].
    pub fn add_extension<E: CodegenExtension>(self, ext: E) -> CodegenExtsBuilder {
        ext.add_extension(self)
    }

    /// Registers the representation `handler` assigns to the leaf type
    /// `custom_type`, replacing any handler registered for that key.
    pub fn custom_type(self, custom_type: CustomTypeKey, handler: LLVMType) -> (r:
        CodegenExtsBuilder)
        ensures
            r.type_handlers@ == self.type_handlers@.push((custom_type, handler)),
            r.op_handlers@ == self.op_handlers@,
            r.const_handlers@ == self.const_handlers@,
    {
        let mut b = self;
        b.type_handlers.push((custom_type, handler));
        b
    }

    /// Registers a handler to emit the extension op `op` of `extension`,
    /// replacing any handler registered for that key.
    pub fn extension_op(self, extension: u64, op: u64, handler: OpHandler) -> (r:
        CodegenExtsBuilder)
        ensures
            r.op_handlers@ == self.op_handlers@.push(
                (ExtensionOpKey { extension, name: op }, handler),
            ),
            r.type_handlers@ == self.type_handlers@,
            r.const_handlers@ == self.const_handlers@,
    {
        let mut b = self;
        b.op_handlers.push((ExtensionOpKey { extension, name: op }, handler));
        b
    }

    /// Registers a handler to materialise constants of kind `kind`; handlers
    /// of one kind are tried in registration order.
    pub fn custom_const(self, kind: u64, handler: ConstHandler) -> (r: CodegenExtsBuilder)
        ensures
            r.const_handlers@ == self.const_handlers@.push((kind, handler)),
            r.type_handlers@ == self.type_handlers@,
            r.op_handlers@ == self.op_handlers@,
    {
        let mut b = self;
        b.const_handlers.push((kind, handler));
        b
    }

    /// Consumes the builder to return the finished, read-only collection of
    /// handlers.
    pub fn finish(self) -> (r: CodegenExtsMap)
        ensures
            r.type_handlers@ == self.type_handlers@,
            r.op_handlers@ == self.op_handlers@,
            r.const_handlers@ == self.const_handlers@,
    {
        CodegenExtsMap {
            type_handlers: self.type_handlers,
            op_handlers: self.op_handlers,
            const_handlers: self.const_handlers,
        }
    }
}

/// The result of [`CodegenExtsBuilder::finish`]: the registry the engine
/// routes through. Built once, then only read.
pub struct CodegenExtsMap {
    pub type_handlers: Vec<(CustomTypeKey, LLVMType)>,
    pub op_handlers: Vec<(ExtensionOpKey, OpHandler)>,
    pub const_handlers: Vec<(u64, ConstHandler)>,
}

impl CodegenExtsMap {
    /// The representation registered for the leaf type `key`, or a
    /// `LookupError` if no handler was ever registered for it. The last
    /// registration of the key wins.
    pub fn lookup_type(&self, key: CustomTypeKey) -> (r: Result<LLVMType, CodegenError>)
        ensures
            r matches Ok(t) ==> type_handler_get(self.type_handlers@, key) == Some(t@),
            r is Err <==> type_handler_get(self.type_handlers@, key) is None,
            r matches Err(e) ==> e == CodegenError::LookupError,
    {
        let n = self.type_handlers.len();
        let mut i: usize = n;
        proof {
            assert(self.type_handlers@.subrange(0, n as int) =~= self.type_handlers@);
        }
        while i > 0
            invariant
                i <= n,
                n == self.type_handlers@.len(),
                type_handler_get(self.type_handlers@, key) == type_handler_get(
                    self.type_handlers@.subrange(0, i as int),
                    key,
                ),
            decreases i,
        {
            i = i - 1;
            let entry_key = self.type_handlers[i].0;
            proof {
                assert(self.type_handlers@.subrange(0, i + 1).drop_last() =~= self.type_handlers@.subrange(
                    0,
                    i as int,
                ));
            }
            if entry_key.extension == key.extension && entry_key.name == key.name {
                let t = clone_llvm_type(&self.type_handlers[i].1);
                proof {
                    assert(entry_key == key);
                    assert(self.type_handlers@.subrange(0, i + 1).last() == self.type_handlers@[i as int]);
                }
                return Ok(t);
            }
        }
        proof {
            assert(self.type_handlers@.subrange(0, 0) =~= Seq::<(
                CustomTypeKey,
                LLVMType,
            )>::empty());
        }
        Err(CodegenError::LookupError)
    }

    /// The handler registered for the extension op `key`, or a `LookupError`
    /// if no handler was ever registered for it. The last registration of
    /// the key wins.
    pub fn lookup_op(&self, key: ExtensionOpKey) -> (r: Result<OpHandler, CodegenError>)
        ensures
            r matches Ok(h) ==> op_handler_get(self.op_handlers@, key) == Some(h),
            r is Err <==> op_handler_get(self.op_handlers@, key) is None,
            r matches Err(e) ==> e == CodegenError::LookupError,
    {
        let n = self.op_handlers.len();
        let mut i: usize = n;
        proof {
            assert(self.op_handlers@.subrange(0, n as int) =~= self.op_handlers@);
        }
        while i > 0
            invariant
                i <= n,
                n == self.op_handlers@.len(),
                op_handler_get(self.op_handlers@, key) == op_handler_get(
                    self.op_handlers@.subrange(0, i as int),
                    key,
                ),
            decreases i,
        {
            i = i - 1;
            let entry = self.op_handlers[i];
            proof {
                assert(self.op_handlers@.subrange(0, i + 1).drop_last() =~= self.op_handlers@.subrange(
                    0,
                    i as int,
                ));
                assert(self.op_handlers@.subrange(0, i + 1).last() == self.op_handlers@[i as int]);
            }
            if entry.0 == key {
                return Ok(entry.1);
            }
        }
        proof {
            assert(self.op_handlers@.subrange(0, 0) =~= Seq::<(
                ExtensionOpKey,
                OpHandler,
            )>::empty());
        }
        Err(CodegenError::LookupError)
    }

    /// The handler that materialises `konst`: the handlers registered for
    /// `konst.kind` are tried in registration order until one accepts the
    /// constant; if none was registered or none accepts, a `LookupError`.
    pub fn load_constant(&self, konst: NativeConst) -> (r: Result<ConstHandler, CodegenError>)
        ensures
            r matches Ok(h) ==> const_handler_get(self.const_handlers@, konst) == Some(h),
            r is Err <==> const_handler_get(self.const_handlers@, konst) is None,
            r matches Err(e) ==> e == CodegenError::LookupError,
    {
        let n = self.const_handlers.len();
        let mut i: usize = 0;
        proof {
            assert(self.const_handlers@.skip(0) =~= self.const_handlers@);
        }
        while i < n
            invariant
                i <= n,
                n == self.const_handlers@.len(),
                const_handler_get(self.const_handlers@, konst) == const_handler_get(
                    self.const_handlers@.skip(i as int),
                    konst,
                ),
            decreases n - i,
        {
            let entry = self.const_handlers[i];
            proof {
                assert(self.const_handlers@.skip(i as int).first() == self.const_handlers@[i as int]);
                assert(self.const_handlers@.skip(i as int).drop_first() =~= self.const_handlers@.skip(
                    i + 1,
                ));
            }
            if entry.0 == konst.kind && entry.1.accepts == konst.concrete {
                return Ok(entry.1);
            }
            i = i + 1;
        }
        proof {
            assert(self.const_handlers@.skip(n as int) =~= Seq::<(u64, ConstHandler)>::empty());
        }
        Err(CodegenError::LookupError)
    }
}

/// Registry overwrite: registering one op handler and then another under the
/// same key leaves exactly the second to be found, whatever was registered
/// around them.
pub proof fn lemma_register_overwrites(
    s: Seq<(ExtensionOpKey, OpHandler)>,
    key: ExtensionOpKey,
    h1: OpHandler,
    h2: OpHandler,
)
    ensures
        op_handler_get(s.push((key, h1)).push((key, h2)), key) == Some(h2),
{
    assert(s.push((key, h1)).push((key, h2)).last() == (key, h2));
}

} // verus!
