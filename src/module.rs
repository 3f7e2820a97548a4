use vstd::prelude::*;

verus! {

/// The identity of a module: a 128-bit value, fixed when the module is made
/// and never reused by a graph.
#[derive(Clone, Copy, Debug, PartialEq, Eq, Structural, Hash)]
pub struct ModuleId {
    pub value: u128,
}

impl ModuleId {
    pub fn from_u128(value: u128) -> (r: ModuleId)
        ensures
            r.value == value,
    {
        ModuleId { value }
    }

    pub fn as_u128(&self) -> (r: u128)
        ensures
            r == self.value,
    {
        self.value
    }
}

/// Relies on uuid::Uuid::new_v4, read back with Uuid::as_u128: a fresh random
/// identifier. Nothing is promised of its value.
#[verifier::external_body]
fn random_module_id() -> (r: ModuleId) {
    ModuleId { value: uuid::Uuid::new_v4().as_u128() }
}

/// Identity, display name and declared port counts of one module. The counts
/// are fixed for the module's lifetime: the fields are private and no method
/// changes them.
#[derive(Debug)]
pub struct ModuleBase {
    id: ModuleId,
    name: String,
    input_count: usize,
    output_count: usize,
    buffer_size: usize,
}

impl ModuleBase {
    pub closed spec fn spec_id(&self) -> ModuleId {
        self.id
    }

    pub closed spec fn spec_input_count(&self) -> nat {
        self.input_count as nat
    }

    pub closed spec fn spec_output_count(&self) -> nat {
        self.output_count as nat
    }

    pub closed spec fn spec_buffer_size(&self) -> nat {
        self.buffer_size as nat
    }

    pub closed spec fn spec_name(&self) -> Seq<char> {
        self.name@
    }

    /// A module with a fresh random identity.
    pub fn new(name: &str, input_count: usize, output_count: usize, buffer_size: usize) -> (r:
        ModuleBase)
        ensures
            r.spec_name() == name@,
            r.spec_input_count() == input_count,
            r.spec_output_count() == output_count,
            r.spec_buffer_size() == buffer_size,
    {
        let id = random_module_id();
        ModuleBase::with_id(id, name, input_count, output_count, buffer_size)
    }

    /// A module with an identity chosen by the caller.
    pub fn with_id(
        id: ModuleId,
        name: &str,
        input_count: usize,
        output_count: usize,
        buffer_size: usize,
    ) -> (r: ModuleBase)
        ensures
            r.spec_id() == id,
            r.spec_name() == name@,
            r.spec_input_count() == input_count,
            r.spec_output_count() == output_count,
            r.spec_buffer_size() == buffer_size,
    {
        ModuleBase { id, name: name.to_string(), input_count, output_count, buffer_size }
    }

    pub fn id(&self) -> (r: ModuleId)
        ensures
            r == self.spec_id(),
    {
        self.id
    }

    pub fn name(&self) -> (r: &str)
        ensures
            r@ == self.spec_name(),
    {
        self.name.as_str()
    }

    pub fn input_count(&self) -> (r: usize)
        ensures
            r == self.spec_input_count(),
    {
        self.input_count
    }

    pub fn output_count(&self) -> (r: usize)
        ensures
            r == self.spec_output_count(),
    {
        self.output_count
    }

    pub fn buffer_size(&self) -> (r: usize)
        ensures
            r == self.spec_buffer_size(),
    {
        self.buffer_size
    }
}

} // verus!
