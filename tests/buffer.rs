use circular_buffer::CircularBuffer;
use rand::distributions::{Distribution, Uniform};
use std::ops::Deref;

#[test]
fn test_basic_write() {
    let mut buf = CircularBuffer::<u8>::new(4);

    let write_result = buf.write(1);
    assert!(write_result.is_ok());
    assert_eq!(buf.is_empty(), false);
    assert_eq!(buf.size(), 1);

    assert_eq!(buf.index_start(), 0);
    assert_eq!(buf.index_next_free(), 1);

    assert_eq!(*buf.slot(0).unwrap(), 1);
}

#[test]
fn test_basic_read() {
    let mut buf = CircularBuffer::<u8>::new(4);

    let write_result = buf.write(1);
    assert!(write_result.is_ok());
    assert_eq!(buf.is_empty(), false);
    assert_eq!(buf.size(), 1);

    let read_result = buf.read();
    assert!(read_result.is_ok());
    assert!(buf.is_empty());
    assert_eq!(buf.size(), 0);
    assert_eq!(read_result.unwrap(), 1);
}

#[test]
fn test_basic_peek() {
    let mut buf = CircularBuffer::<u8>::new(4);

    let write_result = buf.write(1);
    assert!(write_result.is_ok());
    assert_eq!(buf.is_empty(), false);
    assert_eq!(buf.size(), 1);

    let peek_result = buf.peek();
    assert!(peek_result.is_ok());
    assert_eq!(buf.is_empty(), false);
    assert_eq!(buf.size(), 1);
    assert_eq!(*peek_result.unwrap(), 1);

    let read_result = buf.read();
    assert!(read_result.is_ok());
    assert!(buf.is_empty());
    assert_eq!(buf.size(), 0);
    assert_eq!(read_result.unwrap(), 1);
}

#[test]
fn test_basic_peek_many() {
    let mut buf = CircularBuffer::<u8>::new(4);
    buf.write_many(&[1, 2, 3]).unwrap();

    // can't read 4
    let mut peek_result = buf.peek_many(4);
    assert!(peek_result.is_err());
    assert_eq!(buf.is_empty(), false);
    assert_eq!(buf.size(), 3);

    peek_result = buf.peek_many(2);
    assert!(peek_result.is_ok());
    assert_eq!(buf.is_empty(), false);
    assert_eq!(buf.size(), 3);

    let values = peek_result.unwrap();
    assert_eq!(values.len(), 2);
    assert_eq!(values[0], 1);
    assert_eq!(values[1], 2);
}

#[test]
fn test_basic_write_many() {
    let mut buf = CircularBuffer::<u8>::new(4);

    let mut write_result = buf.write_many(&[1, 2, 3]);
    assert!(write_result.is_ok());
    assert_eq!(buf.is_empty(), false);
    assert_eq!(buf.size(), 3);

    let mut read_result = buf.read();
    assert!(read_result.is_ok());
    assert_eq!(buf.size(), 2);
    assert_eq!(read_result.unwrap(), 1);

    read_result = buf.read();
    assert!(read_result.is_ok());
    assert_eq!(buf.size(), 1);
    assert_eq!(read_result.unwrap(), 2);

    read_result = buf.read();
    assert!(read_result.is_ok());
    assert_eq!(buf.size(), 0);
    assert_eq!(read_result.unwrap(), 3);

    assert!(buf.is_empty());

    // buffer is now empty, try to add more that allowed
    write_result = buf.write_many(&[1, 2, 3, 4, 5]);
    assert!(write_result.is_err());
    assert!(buf.is_empty());
    assert_eq!(buf.size(), 0);
}

#[test]
fn test_basic_read_many() {
    let mut buf = CircularBuffer::<u8>::new(4);
    buf.write_many(&[1, 2, 3]).unwrap();

    // can't read 4
    let mut read_result = buf.read_many(4);
    assert!(read_result.is_err());
    assert_eq!(buf.is_empty(), false);
    assert_eq!(buf.size(), 3);

    read_result = buf.read_many(2);
    assert!(read_result.is_ok());
    assert_eq!(buf.is_empty(), false);
    assert_eq!(buf.size(), 1);
    let boxed_values = read_result.unwrap();
    let values = boxed_values.deref();
    assert_eq!(values.len(), 2);
    assert_eq!(values[0], 1);
    assert_eq!(values[1], 2);
}

#[test]
fn test_basic_clear() {
    let mut buf = CircularBuffer::<u8>::new(4);

    let write_result = buf.write_many(&[1, 2, 3]);
    assert!(write_result.is_ok());
    assert_eq!(buf.is_empty(), false);
    assert_eq!(buf.size(), 3);

    buf.clear();
    assert!(buf.is_empty());
    assert_eq!(buf.size(), 0);
}

#[test]
fn test_usage_single_elements() {
    // repeatedly write X elements, remove X elements, with peeks before every read
    // the amount of write/reads is randomised every iteration
    // this cause the buffer to "wrap around" multiple times in different ways

    let loop_count = 1000;
    let capacity: u8 = 4;

    let mut buf = CircularBuffer::<u8>::new(capacity.into());
    let mut rng = rand::thread_rng();
    let random_range = Uniform::from(1..capacity + 1);

    for _ in 0..loop_count {
        let read_write_amount = random_range.sample(&mut rng);
        let write_value = random_range.sample(&mut rng);
        for _ in 0..read_write_amount {
            assert_eq!(buf.is_full(), false);
            buf.write(write_value).unwrap();
        }
        for _ in 0..read_write_amount {
            let peek_value = buf.peek().unwrap();
            assert_eq!(*peek_value, write_value);
            let read_value = buf.read().unwrap();
            assert_eq!(read_value, write_value);
        }
    }
}

#[test]
fn test_usage_many_elements() {
    // repeatedly write X elements, remove X elements, with peeks before every read
    // the amount of write/reads is randomised every iteration
    // this cause the buffer to "wrap around" multiple times in different ways

    let loop_count = 1000;
    let capacity: u8 = 4;

    let mut buf = CircularBuffer::<u8>::new(capacity.into());
    let mut rng = rand::thread_rng();
    let random_range = Uniform::from(1..capacity + 1);

    for _ in 0..loop_count {
        let read_write_amount = random_range.sample(&mut rng);
        let write_value = random_range.sample(&mut rng);

        assert_eq!(buf.is_full(), false);
        let data_vec = vec![write_value; read_write_amount as usize];
        let data = data_vec.as_slice();
        buf.write_many(data.as_ref()).unwrap();

        let peek_values = buf.peek_many(read_write_amount as usize).unwrap();
        for i in 0..peek_values.len() {
            assert_eq!(peek_values[i], write_value);
        }

        let read_result = buf.read_many(read_write_amount as usize).unwrap();
        let values = read_result.deref();
        assert_eq!(values.len(), read_write_amount as usize);
        assert_eq!(values, data);
    }
}

#[test]
fn test_check_methods() {
    let mut buf = CircularBuffer::<u8>::new(4);
    buf.write(1).unwrap();
    buf.is_empty();
    buf.is_full();
    buf.peek().unwrap();
    buf.read().unwrap();
    buf.size();
    buf.capacity();
    buf.write_many(&[1, 2]).unwrap();
    buf.peek_many(2).unwrap();
    buf.read_many(2).unwrap();
    buf.clear();
}
