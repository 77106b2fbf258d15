use event_store::descriptor::{EventDescriptor, EventField};
use event_store::error::SchemaError;
use event_store::kind::Kind;
use event_store::schema::{
    event_to_tables, has_nested_dynamic_arrays, map_value, Column, SqlType, Table,
};

fn event_descriptor(values: Vec<Kind>) -> EventDescriptor {
    EventDescriptor {
        name: Default::default(),
        inputs: values
            .into_iter()
            .enumerate()
            .map(|(i, value)| EventField {
                name: format!("field {i}"),
                kind: value,
                indexed: Default::default(),
            })
            .collect(),
        anonymous: Default::default(),
    }
}

#[test]
fn map_value_simple() {
    let values = vec![Kind::Bytes, Kind::Bool];
    let schema = event_to_tables(&event_descriptor(values)).unwrap();
    let expected = vec![Table(vec![Column(SqlType::Blob), Column(SqlType::Integer)])];
    assert_eq!(schema, expected);
}

#[test]
fn map_value_complex_flat() {
    let values = vec![
        Kind::Bool,
        Kind::Tuple(vec![Kind::Bytes, Kind::Bool]),
        Kind::Bool,
        Kind::FixedArray(2, Box::new(Kind::Bytes)),
        Kind::Bool,
        Kind::Tuple(vec![Kind::Tuple(vec![Kind::FixedArray(
            2,
            Box::new(Kind::Bytes),
        )])]),
        Kind::Bool,
        Kind::FixedArray(2, Box::new(Kind::FixedArray(2, Box::new(Kind::Bytes)))),
    ];
    let schema = event_to_tables(&event_descriptor(values)).unwrap();
    let expected = vec![Table(vec![
        Column(SqlType::Integer),
        // first tuple
        Column(SqlType::Blob),
        Column(SqlType::Integer),
        //
        Column(SqlType::Integer),
        // first fixed array
        Column(SqlType::Blob),
        Column(SqlType::Blob),
        //
        Column(SqlType::Integer),
        // second tuple
        Column(SqlType::Blob),
        Column(SqlType::Blob),
        //
        Column(SqlType::Integer),
        // second fixed array
        Column(SqlType::Blob),
        Column(SqlType::Blob),
        Column(SqlType::Blob),
        Column(SqlType::Blob),
    ])];
    assert_eq!(schema, expected);
}

#[test]
fn map_value_array() {
    let values = vec![
        Kind::Bool,
        Kind::DynamicArray(Box::new(Kind::Bytes)),
        Kind::Bool,
        Kind::DynamicArray(Box::new(Kind::Bool)),
        Kind::Bool,
    ];
    let schema = event_to_tables(&event_descriptor(values)).unwrap();
    let expected = vec![
        Table(vec![
            Column(SqlType::Integer),
            Column(SqlType::Integer),
            Column(SqlType::Integer),
        ]),
        Table(vec![Column(SqlType::Blob)]),
        Table(vec![Column(SqlType::Integer)]),
    ];
    assert_eq!(schema, expected);
}

#[test]
fn every_scalar_but_bool_is_stored_as_bytes() {
    let values = vec![
        Kind::SignedInt(8),
        Kind::UnsignedInt(256),
        Kind::Address,
        Kind::Bool,
        Kind::FixedBytes(32),
        Kind::Function,
        Kind::Bytes,
        Kind::String,
    ];
    let schema = event_to_tables(&event_descriptor(values)).unwrap();
    let blob = Column(SqlType::Blob);
    let expected = vec![Table(vec![
        blob,
        blob,
        blob,
        Column(SqlType::Integer),
        blob,
        blob,
        blob,
        blob,
    ])];
    assert_eq!(schema, expected);
}

#[test]
fn event_without_fields_has_one_empty_table() {
    let schema = event_to_tables(&event_descriptor(vec![])).unwrap();
    assert_eq!(schema, vec![Table(vec![])]);
}

#[test]
fn array_of_tuples_is_one_table() {
    let values = vec![
        Kind::Bool,
        Kind::DynamicArray(Box::new(Kind::Tuple(vec![Kind::Bool, Kind::String]))),
    ];
    let schema = event_to_tables(&event_descriptor(values)).unwrap();
    let expected = vec![
        Table(vec![Column(SqlType::Integer)]),
        Table(vec![Column(SqlType::Integer), Column(SqlType::Blob)]),
    ];
    assert_eq!(schema, expected);
}

#[test]
fn one_table_more_than_dynamic_arrays() {
    let values = vec![
        Kind::Tuple(vec![
            Kind::DynamicArray(Box::new(Kind::Bool)),
            Kind::Address,
            Kind::DynamicArray(Box::new(Kind::FixedArray(3, Box::new(Kind::Bytes)))),
        ]),
        Kind::FixedArray(2, Box::new(Kind::Bool)),
        Kind::DynamicArray(Box::new(Kind::Tuple(vec![]))),
    ];
    let schema = event_to_tables(&event_descriptor(values)).unwrap();
    assert_eq!(schema.len(), 1 + 3);
    assert_eq!(schema[0].0.len(), 3);
    assert_eq!(schema[1], Table(vec![Column(SqlType::Integer)]));
    assert_eq!(schema[2].0.len(), 3);
    assert_eq!(schema[3], Table(vec![]));
}

#[test]
fn fixed_array_of_dynamic_arrays_opens_a_table_for_each_element() {
    let values = vec![Kind::FixedArray(
        2,
        Box::new(Kind::DynamicArray(Box::new(Kind::Bool))),
    )];
    let schema = event_to_tables(&event_descriptor(values)).unwrap();
    let expected = vec![
        Table(vec![]),
        Table(vec![Column(SqlType::Integer)]),
        Table(vec![Column(SqlType::Integer)]),
    ];
    assert_eq!(schema, expected);
}

#[test]
fn empty_fixed_array_adds_nothing() {
    let values = vec![
        Kind::FixedArray(0, Box::new(Kind::DynamicArray(Box::new(Kind::Bool)))),
        Kind::FixedArray(0, Box::new(Kind::Bool)),
    ];
    let schema = event_to_tables(&event_descriptor(values)).unwrap();
    assert_eq!(schema, vec![Table(vec![])]);
}

#[test]
fn array_of_arrays_is_refused() {
    let values = vec![Kind::DynamicArray(Box::new(Kind::DynamicArray(Box::new(
        Kind::Bool,
    ))))];
    assert_eq!(
        event_to_tables(&event_descriptor(values)),
        Err(SchemaError::NestedDynamicArrays)
    );
}

#[test]
fn array_of_arrays_through_tuples_is_refused() {
    let nested = Kind::DynamicArray(Box::new(Kind::Tuple(vec![
        Kind::Bool,
        Kind::FixedArray(2, Box::new(Kind::DynamicArray(Box::new(Kind::Bytes)))),
    ])));
    let values = vec![Kind::Bool, Kind::Tuple(vec![Kind::Address, nested])];
    assert_eq!(
        event_to_tables(&event_descriptor(values)),
        Err(SchemaError::NestedDynamicArrays)
    );
}

#[test]
fn nesting_is_told_apart() {
    let flat = Kind::Tuple(vec![Kind::Bool, Kind::FixedArray(4, Box::new(Kind::String))]);
    let one = Kind::Tuple(vec![
        Kind::DynamicArray(Box::new(Kind::Bool)),
        Kind::DynamicArray(Box::new(Kind::Bool)),
    ]);
    let two = Kind::DynamicArray(Box::new(Kind::Tuple(vec![Kind::DynamicArray(Box::new(
        Kind::Bool,
    ))])));
    let three = Kind::DynamicArray(Box::new(Kind::DynamicArray(Box::new(
        Kind::DynamicArray(Box::new(Kind::Bool)),
    ))));
    assert!(!has_nested_dynamic_arrays(&flat));
    assert!(!has_nested_dynamic_arrays(&one));
    assert!(has_nested_dynamic_arrays(&two));
    assert!(has_nested_dynamic_arrays(&three));
}

#[test]
fn map_value_extends_the_tables_that_are_there() {
    let mut tables = vec![
        Table(vec![Column(SqlType::Blob)]),
        Table(vec![Column(SqlType::Integer)]),
    ];
    map_value(
        &mut tables,
        &Kind::Tuple(vec![
            Kind::Bool,
            Kind::DynamicArray(Box::new(Kind::Address)),
            Kind::Bytes,
        ]),
    );
    let expected = vec![
        Table(vec![
            Column(SqlType::Blob),
            Column(SqlType::Integer),
            Column(SqlType::Blob),
        ]),
        Table(vec![Column(SqlType::Integer)]),
        Table(vec![Column(SqlType::Blob)]),
    ];
    assert_eq!(tables, expected);
}

#[test]
fn kinds_are_compared_and_copied() {
    let kind = Kind::Tuple(vec![
        Kind::SignedInt(8),
        Kind::DynamicArray(Box::new(Kind::FixedBytes(4))),
    ]);
    let other = Kind::Tuple(vec![
        Kind::SignedInt(8),
        Kind::DynamicArray(Box::new(Kind::FixedBytes(5))),
    ]);
    assert!(kind.same(&kind.clone()));
    assert_eq!(kind.clone(), kind);
    assert!(!kind.same(&other));
    assert!(!Kind::SignedInt(8).same(&Kind::UnsignedInt(8)));
    assert!(!Kind::Tuple(vec![]).same(&Kind::Tuple(vec![Kind::Bool])));
}

#[test]
fn descriptors_are_compared_and_copied() {
    let event = event_descriptor(vec![Kind::Bool, Kind::String]);
    assert!(event.same(&event.clone()));
    assert_eq!(event.clone(), event);
    assert!(!event.same(&event_descriptor(vec![Kind::Bool])));
    assert!(!event.same(&event_descriptor(vec![Kind::Bool, Kind::Bytes])));
    let mut renamed = event.clone();
    renamed.inputs[1].name = "other".to_string();
    assert!(!event.same(&renamed));
    let mut indexed = event.clone();
    indexed.inputs[0].indexed = true;
    assert!(!event.same(&indexed));
    let mut anonymous = event.clone();
    anonymous.anonymous = true;
    assert!(!event.same(&anonymous));
}
