use ratchet::device::{
    pool_access, select_adapter, Device, DeviceError, DeviceRequest, DeviceStep, DeviceType,
    PoolError, MAX_BUFFER_SIZE,
};

#[test]
fn discrete_gpus_are_preferred() {
    let pick = |kinds: &[DeviceType]| select_adapter::<()>(kinds).unwrap();
    assert_eq!(pick(&[DeviceType::Cpu, DeviceType::DiscreteGpu, DeviceType::Other]), 1);
    assert_eq!(pick(&[DeviceType::IntegratedGpu, DeviceType::Other]), 1);
    assert_eq!(pick(&[DeviceType::IntegratedGpu, DeviceType::VirtualGpu]), 0);
    assert_eq!(pick(&[DeviceType::Cpu, DeviceType::VirtualGpu]), 1);
    assert_eq!(pick(&[DeviceType::Cpu]), 0);
}

#[test]
fn last_of_equal_adapters_is_taken() {
    let kinds = [DeviceType::Cpu, DeviceType::DiscreteGpu, DeviceType::DiscreteGpu, DeviceType::Cpu];
    assert_eq!(select_adapter::<()>(&kinds).unwrap(), 2);
}

#[test]
fn no_adapter_is_an_error() {
    assert!(matches!(select_adapter::<()>(&[]), Err(DeviceError::AdapterRequestFailed)));
}

#[test]
fn limits_of_the_requests() {
    assert_eq!(MAX_BUFFER_SIZE, (2 << 29) - 1);
    let limits = DeviceRequest::first().limits().unwrap();
    assert_eq!(limits.max_buffer_size, 1_073_741_823);
    assert_eq!(limits.max_storage_buffer_binding_size, 1_073_741_823);
    assert_eq!(DeviceRequest::AdapterLimits.limits(), None);
}

#[test]
fn refused_device_is_asked_for_once_more() {
    let first = DeviceRequest::first();
    assert!(matches!(first.answered::<u8, &str>(Ok(7)), DeviceStep::Ready(7)));
    let again = match first.answered::<u8, &str>(Err("too much")) {
        DeviceStep::Ask(request) => request,
        _ => panic!("a refusal of the preferred limits is not final"),
    };
    assert_eq!(again, DeviceRequest::AdapterLimits);
    assert!(matches!(again.answered::<u8, &str>(Ok(8)), DeviceStep::Ready(8)));
    assert!(matches!(
        again.answered::<u8, &str>(Err("still too much")),
        DeviceStep::Failed(DeviceError::DeviceAcquisitionFailed("still too much"))
    ));
}

#[test]
fn ordinal_is_zero() {
    let handle = Device::new("device", "queue", 3u8);
    assert_eq!(handle.ordinal(), 0);
    assert_eq!(*handle.device(), "device");
    assert_eq!(*handle.queue(), "queue");
    assert_eq!(*handle.buffer_pool(), 3);
}

#[test]
fn pool_in_use_is_an_error() {
    assert_eq!(pool_access::<u8, ()>(Some(5)).unwrap(), 5);
    assert!(matches!(
        pool_access::<u8, ()>(None),
        Err(DeviceError::BufferCreationFailed(PoolError::ResourceNotAvailable))
    ));
}
