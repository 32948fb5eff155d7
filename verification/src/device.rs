//! Which GPU to use, and how to ask for it.

use vstd::prelude::*;

verus! {

/// The largest buffer that is asked for, in bytes: one byte less than a gibibyte.
pub const MAX_BUFFER_SIZE: u64 = 0x3fff_ffff;

/// One byte more than the largest buffer that is asked for is a gibibyte.
pub proof fn law_largest_buffer_is_below_a_gibibyte()
    ensures
        MAX_BUFFER_SIZE + 1 == 1024 * 1024 * 1024,
        MAX_BUFFER_SIZE <= u32::MAX,
{
}

/// Why a buffer could not be taken from the pool.
#[derive(Debug, Clone, Copy, PartialEq, Eq, Structural)]
pub enum PoolError {
    /// Another user holds the pool.
    ResourceNotAvailable,
}

/// Why a device, or a buffer on it, could not be had. `E` is what the driver answers when it
/// refuses a device.
#[derive(Debug)]
pub enum DeviceError<E> {
    DeviceAcquisitionFailed(E),
    AdapterRequestFailed,
    BufferCreationFailed(PoolError),
}

/// The kind of hardware behind an adapter.
#[derive(Debug, Clone, Copy, PartialEq, Eq, Structural)]
pub enum DeviceType {
    Other,
    IntegratedGpu,
    DiscreteGpu,
    VirtualGpu,
    Cpu,
}

impl DeviceType {
    /// How much this kind of hardware is preferred: the higher, the better.
    pub open spec fn preference(self) -> u32 {
        match self {
            DeviceType::DiscreteGpu => 5,
            DeviceType::Other => 4,
            DeviceType::IntegratedGpu => 3,
            DeviceType::VirtualGpu => 2,
            DeviceType::Cpu => 1,
        }
    }

    /// How much this kind of hardware is preferred: the higher, the better.
    pub fn rank(&self) -> (rank: u32)
        ensures
            rank == self.preference(),
            self is DiscreteGpu <==> rank == 5,
            self is Other <==> rank == 4,
            self is IntegratedGpu <==> rank == 3,
            self is VirtualGpu <==> rank == 2,
            self is Cpu <==> rank == 1,
    {
        match self {
            DeviceType::DiscreteGpu => 5,
            DeviceType::Other => 4,
            DeviceType::IntegratedGpu => 3,
            DeviceType::VirtualGpu => 2,
            DeviceType::Cpu => 1,
        }
    }
}

/// Whether adapter `i` is the one to take: no earlier adapter is preferred to it, and it is
/// preferred to every later one. Of equally preferred adapters, this is the last.
pub open spec fn is_preferred(adapters: Seq<DeviceType>, i: int) -> bool {
    &&& 0 <= i < adapters.len()
    &&& forall|j: int|
        0 <= j <= i ==> (#[trigger] adapters[j]).preference() <= adapters[i].preference()
    &&& forall|j: int|
        i < j < adapters.len() ==> (#[trigger] adapters[j]).preference()
            < adapters[i].preference()
}

/// A discrete GPU is preferred to hardware of another kind, that to an integrated GPU, that to a
/// virtual one, and that to the CPU.
pub proof fn law_preference_is_strict()
    ensures
        DeviceType::DiscreteGpu.preference() > DeviceType::Other.preference(),
        DeviceType::Other.preference() > DeviceType::IntegratedGpu.preference(),
        DeviceType::IntegratedGpu.preference() > DeviceType::VirtualGpu.preference(),
        DeviceType::VirtualGpu.preference() > DeviceType::Cpu.preference(),
{
}

/// The adapter to take is a discrete GPU where there is one; hardware of another kind only where
/// there is no discrete GPU; an integrated GPU only where there is neither; a virtual GPU only
/// where all else are virtual GPUs or CPUs; and a CPU only where there is nothing else. No later
/// adapter is of its kind.
pub proof fn law_preferred_adapter_by_kind(adapters: Seq<DeviceType>, i: int, j: int)
    requires
        is_preferred(adapters, i),
        0 <= j < adapters.len(),
    ensures
        0 <= i < adapters.len(),
        match adapters[i] {
            DeviceType::DiscreteGpu => true,
            DeviceType::Other => adapters[j] != DeviceType::DiscreteGpu,
            DeviceType::IntegratedGpu => adapters[j] != DeviceType::DiscreteGpu && adapters[j]
                != DeviceType::Other,
            DeviceType::VirtualGpu => adapters[j] == DeviceType::VirtualGpu || adapters[j]
                == DeviceType::Cpu,
            DeviceType::Cpu => adapters[j] == DeviceType::Cpu,
        },
        i < j ==> adapters[j] != adapters[i],
{
    assert(adapters[j].preference() <= adapters[i].preference());
}

/// There is at most one adapter to take.
pub proof fn law_preferred_adapter_is_unique(adapters: Seq<DeviceType>, i: int, j: int)
    requires
        is_preferred(adapters, i),
        is_preferred(adapters, j),
    ensures
        i == j,
{
    if i < j {
        assert(adapters[j].preference() < adapters[i].preference());
        assert(adapters[i].preference() <= adapters[j].preference());
    } else if j < i {
        assert(adapters[i].preference() < adapters[j].preference());
        assert(adapters[j].preference() <= adapters[i].preference());
    }
}

/// The position of the adapter to use, given the kind of each.
pub fn select_adapter<E>(adapters: &[DeviceType]) -> (res: Result<usize, DeviceError<E>>)
    ensures
        match res {
            Ok(i) => {
                &&& is_preferred(adapters@, i as int)
                &&& adapters@.contains(DeviceType::DiscreteGpu) ==> adapters@[i as int]
                    == DeviceType::DiscreteGpu
                &&& adapters@[i as int] == DeviceType::Cpu ==> forall|j: int|
                    0 <= j < adapters@.len() ==> #[trigger] adapters@[j] == DeviceType::Cpu
            },
            Err(e) => adapters@.len() == 0 && e == DeviceError::<E>::AdapterRequestFailed,
        },
        res is Ok <==> adapters@.len() > 0,
{
    if adapters.len() == 0 {
        return Err(DeviceError::AdapterRequestFailed);
    }
    let mut best: usize = 0;
    let mut i: usize = 1;
    while i < adapters.len()
        invariant
            best < i <= adapters@.len(),
            forall|j: int|
                0 <= j <= best ==> (#[trigger] adapters@[j]).preference()
                    <= adapters@[best as int].preference(),
            forall|j: int|
                best < j < i ==> (#[trigger] adapters@[j]).preference()
                    < adapters@[best as int].preference(),
        decreases adapters@.len() - i,
    {
        if adapters[i].rank() >= adapters[best].rank() {
            best = i;
        }
        i = i + 1;
    }
    proof {
        assert forall|j: int| 0 <= j < adapters@.len() implies {
            &&& #[trigger] adapters@[j] == DeviceType::DiscreteGpu ==> adapters@[best as int]
                == DeviceType::DiscreteGpu
            &&& adapters@[best as int] == DeviceType::Cpu ==> adapters@[j] == DeviceType::Cpu
        } by {
            law_preferred_adapter_by_kind(adapters@, best as int, j);
        }
    }
    Ok(best)
}

/// The limits that a device is asked for; all others stay at their defaults.
#[derive(Debug, Clone, Copy, PartialEq, Eq, Structural)]
pub struct BufferLimits {
    pub max_buffer_size: u64,
    pub max_storage_buffer_binding_size: u32,
}

/// How far the request for a device has come.
#[derive(Debug, Clone, Copy, PartialEq, Eq, Structural)]
pub enum DeviceRequest {
    /// Ask for the buffer limits that the runtime would like.
    Preferred,
    /// Ask for no more than the adapter says it has.
    AdapterLimits,
}

/// What to do with the driver's answer to a request.
#[derive(Debug)]
pub enum DeviceStep<T, E> {
    /// The device is there.
    Ready(T),
    /// Make this request next.
    Ask(DeviceRequest),
    /// There is no device.
    Failed(DeviceError<E>),
}

impl DeviceRequest {
    /// The request to begin with.
    pub fn first() -> (request: Self)
        ensures
            request == DeviceRequest::Preferred,
    {
        DeviceRequest::Preferred
    }

    /// The limits to ask for, or nothing where the adapter's own limits are asked for.
    pub fn limits(&self) -> (limits: Option<BufferLimits>)
        ensures
            limits == (match *self {
                DeviceRequest::Preferred => Some(
                    BufferLimits {
                        max_buffer_size: MAX_BUFFER_SIZE,
                        max_storage_buffer_binding_size: MAX_BUFFER_SIZE as u32,
                    },
                ),
                DeviceRequest::AdapterLimits => None,
            }),
    {
        match self {
            DeviceRequest::Preferred => Some(
                BufferLimits {
                    max_buffer_size: MAX_BUFFER_SIZE,
                    max_storage_buffer_binding_size: MAX_BUFFER_SIZE as u32,
                },
            ),
            DeviceRequest::AdapterLimits => None,
        }
    }

    /// What follows from the driver's answer: a refusal of the preferred limits is followed by a
    /// request with the adapter's own, and a refusal of those is final.
    pub open spec fn step_after<T, E>(self, answer: Result<T, E>) -> DeviceStep<T, E> {
        match (self, answer) {
            (_, Ok(device)) => DeviceStep::Ready(device),
            (DeviceRequest::Preferred, Err(_)) => DeviceStep::Ask(DeviceRequest::AdapterLimits),
            (DeviceRequest::AdapterLimits, Err(e)) => DeviceStep::Failed(
                DeviceError::DeviceAcquisitionFailed(e),
            ),
        }
    }

    /// What follows from the driver's answer.
    pub fn answered<T, E>(self, answer: Result<T, E>) -> (step: DeviceStep<T, E>)
        ensures
            step == self.step_after(answer),
    {
        match answer {
            Ok(device) => DeviceStep::Ready(device),
            Err(e) => match self {
                DeviceRequest::Preferred => DeviceStep::Ask(DeviceRequest::AdapterLimits),
                DeviceRequest::AdapterLimits => DeviceStep::Failed(
                    DeviceError::DeviceAcquisitionFailed(e),
                ),
            },
        }
    }
}

/// A device is asked for at most twice: the first refusal leads to one more request, and the error
/// of the second is what is reported. A device that is granted is never asked for again.
pub proof fn law_at_most_two_requests<T, E>(first: Result<T, E>, second: Result<T, E>)
    ensures
        first is Ok ==> DeviceRequest::Preferred.step_after(first) == DeviceStep::<T, E>::Ready(
            first->Ok_0,
        ),
        first is Err ==> {
            &&& DeviceRequest::Preferred.step_after(first) matches DeviceStep::Ask(again)
            &&& again == DeviceRequest::AdapterLimits
            &&& again.step_after(second) == (match second {
                Ok(device) => DeviceStep::<T, E>::Ready(device),
                Err(e) => DeviceStep::Failed(DeviceError::DeviceAcquisitionFailed(e)),
            })
        },
{
}

/// A handle to a physical GPU: the driver's device and queue, and the pool of buffers on it. Only
/// one device is supported, so its ordinal is always 0.
#[derive(Debug)]
pub struct Device<D, Q, P> {
    device: D,
    queue: Q,
    ordinal: u32,
    buffer_pool: P,
}

impl<D, Q, P> Device<D, Q, P> {
    #[verifier::type_invariant]
    spec fn is_only_device(self) -> bool {
        self.ordinal == 0
    }

    /// The driver's device.
    pub closed spec fn inner(self) -> D {
        self.device
    }

    /// The queue that commands are submitted to.
    pub closed spec fn command_queue(self) -> Q {
        self.queue
    }

    /// The pool that buffers come from.
    pub closed spec fn buffers(self) -> P {
        self.buffer_pool
    }

    /// The handle to a device that was granted.
    pub fn new(device: D, queue: Q, buffer_pool: P) -> (handle: Self)
        ensures
            handle.inner() == device,
            handle.command_queue() == queue,
            handle.buffers() == buffer_pool,
    {
        Device { device, queue, ordinal: 0, buffer_pool }
    }

    /// The driver's device.
    pub fn device(&self) -> (device: &D)
        ensures
            *device == self.inner(),
    {
        &self.device
    }

    /// The queue that commands are submitted to.
    pub fn queue(&self) -> (queue: &Q)
        ensures
            *queue == self.command_queue(),
    {
        &self.queue
    }

    /// The pool that buffers come from.
    pub fn buffer_pool(&self) -> (pool: &P)
        ensures
            *pool == self.buffers(),
    {
        &self.buffer_pool
    }

    /// The number of the device.
    pub fn ordinal(&self) -> (ordinal: u32)
        ensures
            ordinal == 0,
    {
        proof {
            use_type_invariant(self);
        }
        self.ordinal
    }
}

/// The pool's guard if it could be had at once, and otherwise the error of a pool in use.
pub fn pool_access<G, E>(guard: Option<G>) -> (res: Result<G, DeviceError<E>>)
    ensures
        res == (match guard {
            Some(g) => Ok::<G, DeviceError<E>>(g),
            None => Err(DeviceError::BufferCreationFailed(PoolError::ResourceNotAvailable)),
        }),
{
    match guard {
        Some(g) => Ok(g),
        None => Err(DeviceError::BufferCreationFailed(PoolError::ResourceNotAvailable)),
    }
}

} // verus!
