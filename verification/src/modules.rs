//! Native module metadata: method descriptors, module errors, and the rule
//! that decides whether a method may be called synchronously.

use vstd::prelude::*;
use crate::text::str_eq;

verus! {

#[derive(Debug)]
pub enum ModuleError {
    ModuleNotFound(String),
    MethodNotFound { module: String, method: String },
    InvalidArgs(String),
    IsAsync(String),
    Internal(String),
}

/// Describes a method exposed by a native module.
#[derive(Debug, Clone)]
pub struct MethodDescriptor {
    pub name: String,
    pub description: String,
    pub is_async: bool,
}

impl MethodDescriptor {
    /// A synchronous method.
    pub fn sync(name: &str, description: &str) -> (d: Self)
        ensures
            d.name@ == name@,
            d.description@ == description@,
            !d.is_async,
    {
        MethodDescriptor {
            name: String::from_str(name),
            description: String::from_str(description),
            is_async: false,
        }
    }

    /// An asynchronous method.
    pub fn async_method(name: &str, description: &str) -> (d: Self)
        ensures
            d.name@ == name@,
            d.description@ == description@,
            d.is_async,
    {
        MethodDescriptor {
            name: String::from_str(name),
            description: String::from_str(description),
            is_async: true,
        }
    }
}

/// `i` is the first method of `methods` named `name`.
pub open spec fn is_first_named(methods: Seq<MethodDescriptor>, name: Seq<char>, i: int) -> bool {
    &&& 0 <= i < methods.len()
    &&& methods[i].name@ == name
    &&& forall|j: int| 0 <= j < i ==> methods[j].name@ != name
}

/// Whether a call of `method` on module `module_name`, whose methods are
/// `methods`, may go ahead synchronously: the first method of that name
/// decides; an unknown method and an async one are refused.
pub fn check_sync_call(module_name: &str, methods: &Vec<MethodDescriptor>, method: &str) -> (r: Result<(), ModuleError>)
    ensures
        (forall|i: int| 0 <= i < methods@.len() ==> (#[trigger] methods@[i]).name@ != method@) ==> (r matches Err(
            ModuleError::MethodNotFound { module, method: m },
        ) && module@ == module_name@ && m@ == method@),
        forall|i: int|
            #[trigger] is_first_named(methods@, method@, i) ==> if methods@[i].is_async {
                r matches Err(ModuleError::IsAsync(m)) && m@ == method@
            } else {
                r is Ok
            },
{
    let mut i: usize = 0;
    while i < methods.len()
        invariant
            i <= methods@.len(),
            forall|j: int| 0 <= j < i ==> (#[trigger] methods@[j]).name@ != method@,
        decreases methods@.len() - i,
    {
        if str_eq(methods[i].name.as_str(), method) {
            proof {
                assert forall|k: int| #[trigger] is_first_named(methods@, method@, k) implies k == i by {
                    if k < i {
                        assert(methods@[k].name@ != method@);
                    } else if k > i {
                        assert(methods@[i as int].name@ == method@);
                    }
                }
            }
            if methods[i].is_async {
                return Err(ModuleError::IsAsync(String::from_str(method)));
            } else {
                return Ok(());
            }
        }
        i = i + 1;
    }
    Err(ModuleError::MethodNotFound { module: String::from_str(module_name), method: String::from_str(method) })
}

} // verus!
