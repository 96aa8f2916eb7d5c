use dockbase::channel::Channel;
use dockbase::exception::{Exception, ExceptionType};

#[test]
fn test_channel_fifo_order() {
    let mut channel: Channel<u32> = Channel::new();
    channel.put(1).unwrap();
    channel.put(2).unwrap();
    channel.put(3).unwrap();
    assert_eq!(channel.len(), 3);
    assert_eq!(channel.get().unwrap(), 1);
    assert_eq!(channel.get().unwrap(), 2);
    assert_eq!(channel.get().unwrap(), 3);
    assert_eq!(channel.len(), 0);
}

#[test]
fn test_channel_default_is_empty() {
    let channel: Channel<u8> = Channel::default();
    assert_eq!(channel.len(), 0);
}

#[test]
fn test_exception_types() {
    assert_eq!(Exception::Invalid("bad input").get_type(), ExceptionType::Invalid);
    assert_eq!(Exception::IO("disk trouble").get_type(), ExceptionType::IO);
    assert_eq!(Exception::Execution("Lock poisoned").get_type(), ExceptionType::Execution);
    assert_eq!(Exception::OutOfMemory("full").get_type(), ExceptionType::OutOfMemory);
}

#[test]
fn test_exception_messages() {
    assert_eq!(Exception::Invalid("bad input").message(), "bad input");
    assert_eq!(Exception::type_to_string(ExceptionType::Invalid), "Invalid");
    assert_eq!(Exception::type_to_string(ExceptionType::IO), "IO Error");
    assert_eq!(Exception::type_to_string(ExceptionType::OutOfRange), "Out of Range");
}
