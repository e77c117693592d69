use vstd::prelude::*;

verus! {

/// Number of payload words a request carries.
pub const PAYLOAD_WORDS: usize = 4;

/// The host-facing channel a request arrived on.
#[derive(Clone, Copy, Debug, PartialEq, Eq, Structural)]
pub enum HostChannel {
    Serial,
}

/// The on-chip interface a request targets.
#[derive(Clone, Copy, Debug, PartialEq, Eq, Structural)]
pub enum Interface {
    RegisterBus,
    Config,
    Gpio,
    Jtag,
    Spi,
}

/// What a request asks the interface to do.
#[derive(Clone, Copy, Debug, PartialEq, Eq, Structural)]
pub enum Operation {
    Read,
    Write,
    BusSpecificSet,
}

/// A request in its draft stage: filled in field by field, and not yet fit
/// to be dispatched. Only `validate` turns it into a `ValidatedRequest`.
/// Payload slots at or beyond `size` carry no meaning.
#[derive(Clone, Copy, Debug)]
pub struct HostRequest {
    pub host_config: Option<HostChannel>,
    pub interface: Option<Interface>,
    pub operation: Option<Operation>,
    pub size: u8,
    pub payload: [u32; 4],
}

impl HostRequest {
    /// Every field is set, `size` fits the payload and the unused slots are zero.
    pub open spec fn complete(&self) -> bool {
        &&& self.host_config is Some
        &&& self.interface is Some
        &&& self.operation is Some
        &&& self.size <= PAYLOAD_WORDS
        &&& forall|k: int| self.size <= k < PAYLOAD_WORDS ==> self.payload@[k] == 0
    }

    /// The request reads as channel `Serial`, interface `i`, operation `o`,
    /// with the words `values` as its payload and zero after them.
    pub open spec fn describes(&self, i: Interface, o: Operation, values: Seq<u32>) -> bool {
        &&& self.host_config == Some(HostChannel::Serial)
        &&& self.interface == Some(i)
        &&& self.operation == Some(o)
        &&& self.size as int == values.len()
        &&& forall|k: int|
            0 <= k < PAYLOAD_WORDS ==> #[trigger] self.payload@[k] == if k < values.len() {
                values[k]
            } else {
                0u32
            }
    }

    pub fn new() -> (r: HostRequest)
        ensures
            r.host_config is None,
            r.interface is None,
            r.operation is None,
            r.size == 0,
            forall|k: int| 0 <= k < PAYLOAD_WORDS ==> r.payload@[k] == 0,
    {
        HostRequest {
            host_config: None,
            interface: None,
            operation: None,
            size: 0,
            payload: [0u32, 0u32, 0u32, 0u32],
        }
    }

    pub fn set_host_config(&mut self, channel: HostChannel)
        ensures
            *final(self) == (HostRequest { host_config: Some(channel), ..*old(self) }),
    {
        self.host_config = Some(channel);
    }

    pub fn set_interface(&mut self, interface: Interface)
        ensures
            *final(self) == (HostRequest { interface: Some(interface), ..*old(self) }),
    {
        self.interface = Some(interface);
    }

    pub fn set_operation(&mut self, operation: Operation)
        ensures
            *final(self) == (HostRequest { operation: Some(operation), ..*old(self) }),
    {
        self.operation = Some(operation);
    }

    pub fn set_size(&mut self, size: u8)
        ensures
            *final(self) == (HostRequest { size, ..*old(self) }),
    {
        self.size = size;
    }

    pub fn set_payload(&mut self, payload: [u32; 4])
        ensures
            *final(self) == (HostRequest { payload, ..*old(self) }),
    {
        self.payload = payload;
    }

    pub fn is_complete(&self) -> (r: bool)
        ensures
            r == self.complete(),
    {
        if self.host_config.is_none() || self.interface.is_none() || self.operation.is_none() {
            return false;
        }
        if self.size as usize > PAYLOAD_WORDS {
            return false;
        }
        let mut k: usize = self.size as usize;
        while k < PAYLOAD_WORDS
            invariant
                self.size <= k <= PAYLOAD_WORDS,
                forall|m: int| self.size <= m < k ==> self.payload@[m] == 0,
            decreases PAYLOAD_WORDS - k,
        {
            if self.payload[k] != 0 {
                return false;
            }
            k = k + 1;
        }
        true
    }

    /// Seals a complete draft; the result can no longer change.
    pub fn validate(self) -> (r: ValidatedRequest)
        requires
            self.complete(),
        ensures
            r@ == self,
    {
        ValidatedRequest { request: self }
    }
}

/// A request that has passed validation and may be handed to dispatch.
#[derive(Clone, Copy, Debug)]
pub struct ValidatedRequest {
    request: HostRequest,
}

impl View for ValidatedRequest {
    type V = HostRequest;

    closed spec fn view(&self) -> HostRequest {
        self.request
    }
}

impl ValidatedRequest {
    #[verifier::type_invariant]
    spec fn sealed_complete(&self) -> bool {
        self.request.complete()
    }

    pub fn channel(&self) -> (r: HostChannel)
        ensures
            self@.host_config == Some(r),
    {
        proof {
            use_type_invariant(self);
        }
        self.request.host_config.unwrap()
    }

    pub fn interface(&self) -> (r: Interface)
        ensures
            self@.interface == Some(r),
    {
        proof {
            use_type_invariant(self);
        }
        self.request.interface.unwrap()
    }

    pub fn operation(&self) -> (r: Operation)
        ensures
            self@.operation == Some(r),
    {
        proof {
            use_type_invariant(self);
        }
        self.request.operation.unwrap()
    }

    pub fn size(&self) -> (r: u8)
        ensures
            r == self@.size,
            r <= PAYLOAD_WORDS,
    {
        proof {
            use_type_invariant(self);
        }
        self.request.size
    }

    pub fn payload(&self) -> (r: [u32; 4])
        ensures
            r == self@.payload,
            forall|k: int| self@.size <= k < PAYLOAD_WORDS ==> r@[k] == 0,
    {
        proof {
            use_type_invariant(self);
        }
        self.request.payload
    }
}

} // verus!
