use event_store::encode::{address_bytes, push_cells, push_rows};
use event_store::kind::Kind;
use event_store::statement::SqlValue;
use event_store::value::{copy_bytes, Address, ExternalFunction, Int, Selector, Uint, Value};

fn number(bit_width: u32, low: u128) -> Value {
    Value::UnsignedInt(Uint {
        bit_width,
        high: 0,
        low,
    })
}

fn cells(value: &Value) -> Vec<SqlValue> {
    let mut row = Vec::new();
    push_cells(&mut row, value);
    row
}

fn rows(value: &Value) -> Vec<Vec<Vec<SqlValue>>> {
    let mut tables = Vec::new();
    push_rows(&mut tables, value);
    tables
}

#[test]
fn scalars_have_their_kinds() {
    assert!(number(8, 1).has_kind(&Kind::UnsignedInt(8)));
    assert!(!number(8, 1).has_kind(&Kind::UnsignedInt(16)));
    assert!(!number(8, 1).has_kind(&Kind::SignedInt(8)));
    assert!(Value::Address(Address([1; 20])).has_kind(&Kind::Address));
    assert!(Value::Bool(false).has_kind(&Kind::Bool));
    assert!(Value::FixedBytes(vec![1, 2]).has_kind(&Kind::FixedBytes(2)));
    assert!(!Value::FixedBytes(vec![1, 2]).has_kind(&Kind::FixedBytes(3)));
    assert!(!Value::FixedBytes(vec![1, 2]).has_kind(&Kind::Bytes));
    assert!(Value::Function(ExternalFunction::default()).has_kind(&Kind::Function));
    assert!(Value::Bytes(vec![]).has_kind(&Kind::Bytes));
    assert!(Value::String("a".to_string()).has_kind(&Kind::String));
    assert!(!Value::String("a".to_string()).has_kind(&Kind::Bytes));
}

#[test]
fn tuples_and_arrays_have_their_kinds() {
    let pair = Value::Tuple(vec![Value::Bool(true), number(8, 0)]);
    let pair_kind = Kind::Tuple(vec![Kind::Bool, Kind::UnsignedInt(8)]);
    assert!(pair.has_kind(&pair_kind));
    assert!(!pair.has_kind(&Kind::Tuple(vec![Kind::Bool])));
    assert!(!pair.has_kind(&Kind::Tuple(vec![Kind::UnsignedInt(8), Kind::Bool])));
    assert!(Value::Tuple(vec![]).has_kind(&Kind::Tuple(vec![])));
    let array = Value::DynamicArray(pair_kind.clone(), vec![pair.clone(), pair.clone()]);
    assert!(array.has_kind(&Kind::DynamicArray(Box::new(pair_kind.clone()))));
    assert!(!array.has_kind(&Kind::DynamicArray(Box::new(Kind::Bool))));
    assert!(!array.has_kind(&Kind::FixedArray(2, Box::new(pair_kind.clone()))));
    let fixed = Value::FixedArray(Kind::Bool, vec![Value::Bool(true), Value::Bool(false)]);
    assert!(fixed.has_kind(&Kind::FixedArray(2, Box::new(Kind::Bool))));
    assert!(!fixed.has_kind(&Kind::FixedArray(3, Box::new(Kind::Bool))));
    assert!(!fixed.has_kind(&Kind::DynamicArray(Box::new(Kind::Bool))));
    let empty = Value::DynamicArray(Kind::Bool, vec![]);
    assert!(empty.has_kind(&Kind::DynamicArray(Box::new(Kind::Bool))));
    assert!(!empty.has_kind(&Kind::DynamicArray(Box::new(Kind::Bytes))));
}

#[test]
fn an_array_with_a_stranger_has_no_kind() {
    let mixed = Value::DynamicArray(Kind::Bool, vec![Value::Bool(true), Value::Bytes(vec![])]);
    assert!(!mixed.has_kind(&Kind::DynamicArray(Box::new(Kind::Bool))));
    let deep = Value::Tuple(vec![Value::FixedArray(Kind::Bool, vec![number(8, 1)])]);
    assert!(!deep.has_kind(&Kind::Tuple(vec![Kind::FixedArray(
        1,
        Box::new(Kind::Bool)
    )])));
    assert!(!deep.has_kind(&Kind::Tuple(vec![Kind::FixedArray(
        1,
        Box::new(Kind::UnsignedInt(8))
    )])));
}

#[test]
fn integers_are_thirty_two_bytes() {
    let mut one = vec![0; 32];
    one[31] = 1;
    assert_eq!(cells(&number(8, 1)), vec![SqlValue::Blob(one.clone())]);
    assert_eq!(
        cells(&Value::SignedInt(Int {
            bit_width: 8,
            high: 0,
            low: 1
        })),
        vec![SqlValue::Blob(one)]
    );
    assert_eq!(
        cells(&Value::SignedInt(Int {
            bit_width: 8,
            high: -1,
            low: u128::MAX
        })),
        vec![SqlValue::Blob(vec![0xff; 32])]
    );
    let mut least = vec![0; 32];
    least[0] = 0x80;
    assert_eq!(
        cells(&Value::SignedInt(Int {
            bit_width: 256,
            high: i128::MIN,
            low: 0
        })),
        vec![SqlValue::Blob(least)]
    );
    let mut split = vec![0; 32];
    split[15] = 2;
    split[16] = 0x80;
    split[30] = 1;
    assert_eq!(
        cells(&Value::UnsignedInt(Uint {
            bit_width: 256,
            high: 2,
            low: (1 << 127) + 256
        })),
        vec![SqlValue::Blob(split)]
    );
    assert_eq!(
        cells(&Value::UnsignedInt(Uint {
            bit_width: 256,
            high: u128::MAX,
            low: u128::MAX
        })),
        vec![SqlValue::Blob(vec![0xff; 32])]
    );
}

#[test]
fn other_scalars_are_their_bytes() {
    assert_eq!(
        cells(&Value::Address(Address([9; 20]))),
        vec![SqlValue::Blob(vec![9; 20])]
    );
    assert_eq!(cells(&Value::Bool(true)), vec![SqlValue::Integer(1)]);
    assert_eq!(cells(&Value::Bool(false)), vec![SqlValue::Integer(0)]);
    assert_eq!(
        cells(&Value::FixedBytes(vec![1, 2, 3])),
        vec![SqlValue::Blob(vec![1, 2, 3])]
    );
    let mut function = vec![1; 20];
    function.extend([2, 3, 4, 5]);
    assert_eq!(
        cells(&Value::Function(ExternalFunction {
            address: Address([1; 20]),
            selector: Selector([2, 3, 4, 5]),
        })),
        vec![SqlValue::Blob(function)]
    );
    assert_eq!(cells(&Value::Bytes(vec![])), vec![SqlValue::Blob(vec![])]);
    assert_eq!(
        cells(&Value::String("aé€".to_string())),
        vec![SqlValue::Blob(vec![0x61, 0xc3, 0xa9, 0xe2, 0x82, 0xac])]
    );
}

#[test]
fn cells_are_put_behind_those_that_are_there() {
    let mut row = vec![SqlValue::Integer(5)];
    push_cells(
        &mut row,
        &Value::Tuple(vec![
            Value::Bool(true),
            Value::DynamicArray(Kind::Bool, vec![Value::Bool(true)]),
            Value::FixedArray(Kind::Bool, vec![Value::Bool(false), Value::Bool(true)]),
            Value::Tuple(vec![]),
        ]),
    );
    assert_eq!(
        row,
        vec![
            SqlValue::Integer(5),
            SqlValue::Integer(1),
            SqlValue::Integer(0),
            SqlValue::Integer(1),
        ]
    );
}

#[test]
fn each_element_of_an_array_is_a_row() {
    let value = Value::Tuple(vec![
        Value::DynamicArray(
            Kind::Tuple(vec![Kind::Bool, Kind::Bytes]),
            vec![
                Value::Tuple(vec![Value::Bool(true), Value::Bytes(vec![1])]),
                Value::Tuple(vec![Value::Bool(false), Value::Bytes(vec![2])]),
            ],
        ),
        Value::Bool(true),
        Value::FixedArray(
            Kind::DynamicArray(Box::new(Kind::Bool)),
            vec![
                Value::DynamicArray(Kind::Bool, vec![]),
                Value::DynamicArray(Kind::Bool, vec![Value::Bool(true)]),
            ],
        ),
    ]);
    assert_eq!(cells(&value), vec![SqlValue::Integer(1)]);
    assert_eq!(
        rows(&value),
        vec![
            vec![
                vec![SqlValue::Integer(1), SqlValue::Blob(vec![1])],
                vec![SqlValue::Integer(0), SqlValue::Blob(vec![2])],
            ],
            vec![],
            vec![vec![SqlValue::Integer(1)]],
        ]
    );
    assert_eq!(rows(&Value::Bool(true)), Vec::<Vec<Vec<SqlValue>>>::new());
}

#[test]
fn bytes_and_values_are_copied() {
    assert_eq!(copy_bytes(&vec![1, 2, 3]), vec![1, 2, 3]);
    assert_eq!(copy_bytes(&vec![]), Vec::<u8>::new());
    let mut address = [0; 20];
    address[0] = 1;
    address[19] = 2;
    assert_eq!(address_bytes(&Address(address)), address.to_vec());
    let value = Value::Tuple(vec![
        Value::DynamicArray(Kind::Bytes, vec![Value::Bytes(vec![1, 2])]),
        Value::String("text".to_string()),
        number(64, 7),
        Value::FixedBytes(vec![3]),
    ]);
    assert_eq!(value.clone(), value);
}
