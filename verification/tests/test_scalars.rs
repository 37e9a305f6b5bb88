use la::field::Field;
use la::graph::Graph;
use la::matrix::Matrix;

#[test]
fn identities_of_the_integer_scalars() {
    assert_eq!(<u8 as Field>::zero(), 0);
    assert_eq!(<u8 as Field>::one(), 1);
    assert_eq!(<i8 as Field>::zero(), 0);
    assert_eq!(<i8 as Field>::one(), 1);
    assert_eq!(<usize as Field>::zero(), 0);
    assert_eq!(<usize as Field>::one(), 1);
    assert_eq!(<u32 as Field>::zero(), 0);
    assert_eq!(<u32 as Field>::one(), 1);
    assert_eq!(<u64 as Field>::zero(), 0);
    assert_eq!(<u64 as Field>::one(), 1);
    assert_eq!(<i32 as Field>::zero(), 0);
    assert_eq!(<i32 as Field>::one(), 1);
    assert_eq!(<i64 as Field>::zero(), 0);
    assert_eq!(<i64 as Field>::one(), 1);
}

#[test]
fn scalars_for_indices() {
    assert_eq!(<u8 as Field>::from_index(0), Some(0));
    assert_eq!(<u8 as Field>::from_index(255), Some(255));
    assert_eq!(<u8 as Field>::from_index(256), None);
    assert_eq!(<i8 as Field>::from_index(127), Some(127));
    assert_eq!(<i8 as Field>::from_index(128), None);
    assert_eq!(<usize as Field>::from_index(0), Some(0));
    assert_eq!(<usize as Field>::from_index(usize::MAX), Some(usize::MAX));
    assert_eq!(<u32 as Field>::from_index(70000), Some(70000));
    assert_eq!(<u64 as Field>::from_index(usize::MAX), Some(usize::MAX as u64));
    assert_eq!(<i32 as Field>::from_index(70000), Some(70000));
    assert_eq!(<i64 as Field>::from_index(70000), Some(70000));
    if usize::BITS == 64 {
        assert_eq!(<u32 as Field>::from_index(u32::MAX as usize + 1), None);
        assert_eq!(<i32 as Field>::from_index(i32::MAX as usize + 1), None);
        assert_eq!(<i64 as Field>::from_index(i64::MAX as usize + 1), None);
    }
}

#[test]
fn scalar_operations_wrap_and_truncate() {
    assert_eq!(Field::add(250u8, 10u8), 4);
    assert_eq!(Field::sub(3u8, 5u8), 254);
    assert_eq!(Field::mul(16u8, 17u8), 16);
    assert_eq!(Field::div(7u8, 2u8), 3);
    assert_eq!(Field::add(127i8, 1i8), -128);
    assert_eq!(Field::sub(-128i8, 1i8), 127);
    assert_eq!(Field::mul(64i8, 2i8), -128);
    assert_eq!(Field::div(-7i8, 2i8), -3);
    assert_eq!(Field::div(-128i8, -1i8), -128);
    assert_eq!(Field::add(usize::MAX, 2usize), 1);
    assert_eq!(Field::sub(0usize, 1usize), usize::MAX);
    assert_eq!(Field::mul(usize::MAX, 2usize), usize::MAX - 1);
    assert_eq!(Field::div(9usize, 4usize), 2);
    assert!(Field::same(5u8, 5u8));
    assert!(!Field::same(5i8, -5i8));
}

#[test]
fn graph_conversions() {
    let g: Graph<2> = Graph::from([[0, 1], [1, 0]]);
    let m: Matrix<u8, 2, 2> = g.into();
    assert_eq!(m, Matrix::from([[0, 1], [1, 0]]));
    let h: Graph<2> = Graph::from(m);
    assert_eq!(h, g);
    let a: [[u8; 2]; 2] = h.into();
    assert_eq!(a, [[0, 1], [1, 0]]);
}

#[test]
fn wider_scalars_wrap_and_truncate() {
    assert_eq!(Field::add(u32::MAX, 2u32), 1);
    assert_eq!(Field::sub(0u32, 1u32), u32::MAX);
    assert_eq!(Field::mul(0x1_0000u32, 0x1_0001u32), 0x1_0000);
    assert_eq!(Field::div(9u32, 4u32), 2);
    assert_eq!(Field::add(u64::MAX, 2u64), 1);
    assert_eq!(Field::sub(0u64, 1u64), u64::MAX);
    assert_eq!(Field::mul(u64::MAX, 2u64), u64::MAX - 1);
    assert_eq!(Field::div(9u64, 4u64), 2);
    assert_eq!(Field::add(i32::MAX, 1i32), i32::MIN);
    assert_eq!(Field::sub(i32::MIN, 1i32), i32::MAX);
    assert_eq!(Field::mul(0x4000_0000i32, 2i32), i32::MIN);
    assert_eq!(Field::div(-7i32, 2i32), -3);
    assert_eq!(Field::div(i32::MIN, -1i32), i32::MIN);
    assert_eq!(Field::add(i64::MAX, 1i64), i64::MIN);
    assert_eq!(Field::sub(i64::MIN, 1i64), i64::MAX);
    assert_eq!(Field::mul(i64::MAX, 2i64), -2);
    assert_eq!(Field::div(7i64, -2i64), -3);
    assert_eq!(Field::div(i64::MIN, -1i64), i64::MIN);
    assert!(Field::same(5u64, 5u64));
    assert!(!Field::same(5i32, -5i32));
}

#[test]
fn matrices_over_wider_scalars() {
    let a: Matrix<i64, 2, 2> = Matrix::from([[4, 7], [2, 6]]);
    assert_eq!(a.rank(), 2);
    assert_eq!(a.reduce(), Matrix::from([[1, 0], [0, 1]]));
    let b: Matrix<i32, 2, 3> = Matrix::from([[1, 2, 3], [2, 4, 6]]);
    assert_eq!(b.rank(), 1);
    assert_eq!(b.reduce(), Matrix::from([[1, 2, 3], [0, 0, 0]]));
}

#[test]
fn remaining_integer_scalars() {
    assert_eq!(<u16 as Field>::zero(), 0);
    assert_eq!(<u16 as Field>::one(), 1);
    assert_eq!(<i16 as Field>::zero(), 0);
    assert_eq!(<i16 as Field>::one(), 1);
    assert_eq!(<u128 as Field>::zero(), 0);
    assert_eq!(<u128 as Field>::one(), 1);
    assert_eq!(<i128 as Field>::zero(), 0);
    assert_eq!(<i128 as Field>::one(), 1);
    assert_eq!(<isize as Field>::zero(), 0);
    assert_eq!(<isize as Field>::one(), 1);
    assert_eq!(<u16 as Field>::from_index(65535), Some(65535));
    assert_eq!(<u16 as Field>::from_index(65536), None);
    assert_eq!(<i16 as Field>::from_index(32767), Some(32767));
    assert_eq!(<i16 as Field>::from_index(32768), None);
    assert_eq!(<u128 as Field>::from_index(usize::MAX), Some(usize::MAX as u128));
    assert_eq!(<i128 as Field>::from_index(usize::MAX), Some(usize::MAX as i128));
    assert_eq!(<isize as Field>::from_index(7), Some(7));
    assert_eq!(<isize as Field>::from_index(isize::MAX as usize), Some(isize::MAX));
    assert_eq!(<isize as Field>::from_index(isize::MAX as usize + 1), None);
    assert_eq!(Field::add(u16::MAX, 2u16), 1);
    assert_eq!(Field::sub(0u16, 1u16), u16::MAX);
    assert_eq!(Field::mul(0x100u16, 0x101u16), 0x100);
    assert_eq!(Field::div(9u16, 4u16), 2);
    assert_eq!(Field::add(i16::MAX, 1i16), i16::MIN);
    assert_eq!(Field::sub(i16::MIN, 1i16), i16::MAX);
    assert_eq!(Field::mul(0x4000i16, 2i16), i16::MIN);
    assert_eq!(Field::div(-7i16, 2i16), -3);
    assert_eq!(Field::div(i16::MIN, -1i16), i16::MIN);
    assert_eq!(Field::add(u128::MAX, 2u128), 1);
    assert_eq!(Field::sub(0u128, 1u128), u128::MAX);
    assert_eq!(Field::mul(u128::MAX, 2u128), u128::MAX - 1);
    assert_eq!(Field::div(9u128, 4u128), 2);
    assert_eq!(Field::add(i128::MAX, 1i128), i128::MIN);
    assert_eq!(Field::sub(i128::MIN, 1i128), i128::MAX);
    assert_eq!(Field::mul(i128::MAX, 2i128), -2);
    assert_eq!(Field::div(-7i128, 2i128), -3);
    assert_eq!(Field::div(i128::MIN, -1i128), i128::MIN);
    assert_eq!(Field::add(isize::MAX, 1isize), isize::MIN);
    assert_eq!(Field::sub(isize::MIN, 1isize), isize::MAX);
    assert_eq!(Field::mul(isize::MAX, 2isize), -2);
    assert_eq!(Field::div(-7isize, 2isize), -3);
    assert_eq!(Field::div(isize::MIN, -1isize), isize::MIN);
}
