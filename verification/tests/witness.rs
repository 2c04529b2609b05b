use binius_circuits::builder::witness::layout::checked_column_len;
use binius_circuits::builder::witness::views::{
    get_bit, pack_byte, read_u128_rows, read_u32_rows, read_u64_rows, read_value_rows, set_bit,
    u128_rows_to_bytes, u32_rows_to_bytes, u64_rows_to_bytes,
};
use binius_circuits::builder::witness::{Builder, Error};

#[test]
fn columns_fill_whole_storage_units() {
    assert_eq!(checked_column_len(0, 0), Some(16));
    assert_eq!(checked_column_len(5, 0), Some(16));
    assert_eq!(checked_column_len(7, 0), Some(16));
    assert_eq!(checked_column_len(8, 0), Some(32));
    assert_eq!(checked_column_len(0, 7), Some(16));
    assert_eq!(checked_column_len(1, 7), Some(32));
    assert_eq!(checked_column_len(16, 5), Some(1 << 18));
    assert_eq!(checked_column_len(22, 7), Some(1 << 26));
    assert_eq!(checked_column_len(usize::MAX, 1), None);
    assert_eq!(checked_column_len(usize::BITS as usize + 3, 0), None);
}

#[test]
fn typed_views_are_little_endian() {
    let bytes: Vec<u8> = (0u8..32).collect();
    assert_eq!(read_u32_rows(&bytes)[0], 0x0302_0100);
    assert_eq!(read_u32_rows(&bytes)[7], 0x1f1e_1d1c);
    assert_eq!(read_u32_rows(&bytes).len(), 8);
    assert_eq!(read_u64_rows(&bytes)[1], 0x0f0e_0d0c_0b0a_0908);
    assert_eq!(read_u64_rows(&bytes).len(), 4);
    assert_eq!(read_u128_rows(&bytes)[1], 0x1f1e_1d1c_1b1a_1918_1716_1514_1312_1110);
    assert_eq!(read_u128_rows(&bytes).len(), 2);
    assert_eq!(u32_rows_to_bytes(&read_u32_rows(&bytes)), bytes);
    assert_eq!(u64_rows_to_bytes(&read_u64_rows(&bytes)), bytes);
    assert_eq!(u128_rows_to_bytes(&read_u128_rows(&bytes)), bytes);
    assert_eq!(u32_rows_to_bytes(&[0xdead_beef]), vec![0xef, 0xbe, 0xad, 0xde]);
    assert_eq!(read_value_rows(&bytes, 3)[5], 5);
    assert_eq!(read_value_rows(&bytes, 4)[1], 0x0302);
    assert_eq!(read_value_rows(&bytes, 5)[1], 0x0706_0504);
    assert_eq!(read_value_rows(&bytes, 6)[0], 0x0706_0504_0302_0100);
    assert_eq!(read_value_rows(&bytes, 7)[0], 0x0f0e_0d0c_0b0a_0908_0706_0504_0302_0100);
    assert_eq!(read_value_rows(&bytes, 4).len(), 16);
    // bytes beyond the last whole value are not read
    assert_eq!(read_u32_rows(&bytes[..7]).len(), 1);
}

#[test]
fn bits_are_packed_from_the_low_bit_up() {
    let mut bytes = vec![0u8; 4];
    set_bit(&mut bytes, 0, true);
    set_bit(&mut bytes, 9, true);
    set_bit(&mut bytes, 31, true);
    assert_eq!(bytes, vec![1, 2, 0, 0x80]);
    assert!(get_bit(&bytes, 9));
    assert!(!get_bit(&bytes, 8));
    set_bit(&mut bytes, 9, false);
    set_bit(&mut bytes, 8, false);
    assert_eq!(bytes, vec![1, 0, 0, 0x80]);
    assert_eq!(pack_byte(true, false, true, false, false, false, false, true), 0x85);
    assert_eq!(pack_byte(false, false, false, false, false, false, false, false), 0);
}

#[test]
fn columns_are_registered_when_their_writer_is_finalized() {
    let mut witness = Builder::new();
    let mut column = witness.new_column(3, 8, 0);
    assert_eq!(column.len(), 32);
    assert!(column.data().iter().all(|b| *b == 0));
    column.data()[0] = 0xab;
    column.set_packed_bit(8, true);
    column.packed()[2] = 0x01;
    column.as_mut_slice()[2] ^= 0x01;
    assert_eq!(column.as_mut_slice().len(), 32);
    assert_eq!(witness.get(3, 0), Err(Error::MissingWitness { id: 3 }));
    column.finalize(&mut witness);
    let data = witness.get(3, 0).unwrap();
    assert_eq!(data.len(), 32);
    assert_eq!(&data[..3], &[0xab, 1, 0]);
    assert_eq!(witness.get(2, 0), Err(Error::MissingWitness { id: 2 }));
    assert_eq!(witness.get(4, 0), Err(Error::MissingWitness { id: 4 }));
    assert_eq!(
        witness.get(3, 5),
        Err(Error::OracleExtensionDegreeMismatch {
            oracle_id: 3,
            field_tower_level: 5,
            entry_tower_level: 0
        })
    );
    assert_eq!(witness.load_bytes(3, 0).unwrap().len(), 32);
    assert_eq!(witness.load_u32(3, 0).unwrap()[0], 0x1ab);
}

#[test]
fn set_data_checks_the_length_of_the_column() {
    let mut witness = Builder::new();
    assert_eq!(
        witness.set_data(1, 8, 0, vec![0; 16]),
        Err(Error::IncorrectDataLength { log_rows: 8, tower_level: 0 })
    );
    assert_eq!(witness.get(1, 0), Err(Error::MissingWitness { id: 1 }));
    assert_eq!(witness.set_data(1, 8, 0, vec![7; 32]), Ok(()));
    assert_eq!(witness.get(1, 0).unwrap(), &[7u8; 32][..]);
    // a later column replaces an earlier one
    assert_eq!(witness.set_data(1, 2, 5, vec![9; 16]), Ok(()));
    assert_eq!(witness.get(1, 5).unwrap(), &[9u8; 16][..]);
    witness.store_u64(0, 1, 6, &[1, 2]);
    assert_eq!(witness.load_u64(0, 6).unwrap(), vec![1, 2]);
    witness.store_u128(5, 0, 7, &[3]);
    assert_eq!(witness.load_u128(5, 7).unwrap(), vec![3]);
    assert_eq!(witness.load_values(5, 7).unwrap(), vec![3]);
    witness.store_bytes(6, 4, 3, &[4; 16]);
    let index = witness.build().unwrap();
    assert_eq!(index.get(1).unwrap().log_rows, 2);
    assert_eq!(index.get(1).unwrap().tower_level, 5);
    assert_eq!(index.get(0).unwrap().data.len(), 16);
    assert_eq!(index.get(6).unwrap().data, vec![4; 16]);
    assert!(index.get(2).is_none());
    assert!(index.get(3).is_none());
    assert!(index.get(4).is_none());
    assert!(index.get(7).is_none());
}
