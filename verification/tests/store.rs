use event_store::database::{Block, EventBlock, Log, Uncle};
use event_store::descriptor::{EventDescriptor, EventField};
use event_store::error::{Error, SchemaError};
use event_store::kind::Kind;
use event_store::registry::{block_from_row, Registry};
use event_store::statement::{Run, SqlValue, Statement, FIXED_COLUMNS_COUNT};
use event_store::value::{Address, ExternalFunction, Int, Selector, Uint, Value};
use rusqlite::types::Value as Cell;
use rusqlite::{params_from_iter, Connection};
use solabi::value::ValueKind;

/// A store in memory: a connection, and a registry that says what to run.
struct Sqlite {
    connection: Connection,
    inner: Registry,
}

fn cell(value: &SqlValue) -> Cell {
    match value {
        SqlValue::Integer(number) => Cell::Integer(*number),
        SqlValue::Text(text) => Cell::Text(text.clone()),
        SqlValue::Blob(bytes) => Cell::Blob(bytes.clone()),
    }
}

fn run(connection: &Connection, statements: &[Statement]) -> Result<(), String> {
    for statement in statements {
        let mut prepared = connection
            .prepare_cached(&statement.sql)
            .map_err(|error| error.to_string())?;
        match statement.run {
            Run::Prepare => {}
            Run::Execute | Run::ExecuteOne => {
                let changed = prepared
                    .execute(params_from_iter(statement.params.iter().map(cell)))
                    .map_err(|error| error.to_string())?;
                statement
                    .check(changed)
                    .map_err(|error| format!("{error:?}"))?;
            }
            Run::Query => unreachable!(),
        }
    }
    Ok(())
}

impl Sqlite {
    fn new_for_test() -> Self {
        let connection = Connection::open_in_memory().unwrap();
        run(&connection, &Registry::setup()).unwrap();
        Self {
            connection,
            inner: Registry::new(),
        }
    }

    fn prepare_event(&mut self, name: &str, event: &EventDescriptor) -> Result<(), String> {
        let transaction = self.connection.transaction().unwrap();
        let new = self
            .inner
            .prepare_event(name, event)
            .map_err(|error| format!("{error:?}"))?;
        let Some(new) = new else {
            return Ok(());
        };
        run(&transaction, new.statements())?;
        transaction.commit().map_err(|error| error.to_string())?;
        self.inner.register(new);
        Ok(())
    }

    fn event_block(&mut self, name: &str) -> Result<Block, String> {
        let query = self.inner.event_block(name);
        assert_eq!(query.run, Run::Query);
        let mut statement = self.connection.prepare_cached(&query.sql).unwrap();
        let mut rows = statement
            .query(params_from_iter(query.params.iter().map(cell)))
            .map_err(|error| error.to_string())?;
        let row = match rows.next().map_err(|error| error.to_string())? {
            Some(row) => Some((row.get(0).unwrap(), row.get(1).unwrap())),
            None => None,
        };
        block_from_row(row).map_err(|error| format!("{error:?}"))
    }

    fn update(&mut self, blocks: &[EventBlock], logs: &[Log]) -> Result<(), String> {
        let transaction = self.connection.transaction().unwrap();
        let statements = self
            .inner
            .update(blocks, logs)
            .map_err(|failure| format!("{:?}", failure.error))?;
        run(&transaction, &statements)?;
        transaction.commit().map_err(|error| error.to_string())
    }

    fn remove(&mut self, uncles: &[Uncle]) -> Result<(), String> {
        let transaction = self.connection.transaction().unwrap();
        let statements = self
            .inner
            .remove(uncles)
            .map_err(|failure| format!("{:?}", failure.error))?;
        run(&transaction, &statements)?;
        transaction.commit().map_err(|error| error.to_string())
    }

    fn rows(&self, table: &str) -> Vec<Vec<Cell>> {
        let mut statement = self
            .connection
            .prepare(&format!("SELECT * FROM {table} ORDER BY 1, 2"))
            .unwrap();
        let columns = statement.column_count();
        let mut rows = statement.query(()).unwrap();
        let mut found = Vec::new();
        while let Some(row) = rows.next().unwrap() {
            found.push((0..columns).map(|i| row.get(i).unwrap()).collect());
        }
        found
    }

    fn column_names(&self, table: &str) -> Vec<String> {
        let statement = self
            .connection
            .prepare(&format!("SELECT * FROM {table}"))
            .unwrap();
        statement
            .column_names()
            .into_iter()
            .map(|name| name.to_string())
            .collect()
    }
}

fn event_descriptor(values: Vec<Kind>) -> EventDescriptor {
    EventDescriptor {
        name: Default::default(),
        inputs: values
            .into_iter()
            .enumerate()
            .map(|(i, value)| EventField {
                name: format!("field {i}"),
                kind: value,
                indexed: Default::default(),
            })
            .collect(),
        anonymous: Default::default(),
    }
}

fn kind_of(kind: &ValueKind) -> Kind {
    match kind {
        ValueKind::Int(width) => Kind::SignedInt(width.get()),
        ValueKind::Uint(width) => Kind::UnsignedInt(width.get()),
        ValueKind::Address => Kind::Address,
        ValueKind::Bool => Kind::Bool,
        ValueKind::FixedBytes(length) => Kind::FixedBytes(length.get()),
        ValueKind::Function => Kind::Function,
        ValueKind::FixedArray(size, element) => Kind::FixedArray(*size, Box::new(kind_of(element))),
        ValueKind::Bytes => Kind::Bytes,
        ValueKind::String => Kind::String,
        ValueKind::Array(element) => Kind::DynamicArray(Box::new(kind_of(element))),
        ValueKind::Tuple(fields) => Kind::Tuple(fields.iter().map(kind_of).collect()),
    }
}

fn descriptor_of(event: &solabi::abi::EventDescriptor) -> EventDescriptor {
    EventDescriptor {
        name: event.name.clone(),
        inputs: event
            .inputs
            .iter()
            .map(|input| EventField {
                name: input.field.name.clone(),
                kind: kind_of(&input.field.kind),
                indexed: input.indexed,
            })
            .collect(),
        anonymous: event.anonymous,
    }
}

fn word(last: u8) -> Vec<u8> {
    let mut bytes = vec![0; 32];
    bytes[31] = last;
    bytes
}

#[test]
fn new_for_test() {
    Sqlite::new_for_test();
}

#[test]
fn full_leaf_types() {
    let mut sqlite = Sqlite::new_for_test();
    let values = vec![
        Kind::SignedInt(8),
        Kind::UnsignedInt(8),
        Kind::Address,
        Kind::Bool,
        Kind::FixedBytes(1),
        Kind::Function,
        Kind::Bytes,
        Kind::String,
    ];
    let event = event_descriptor(values);
    sqlite.prepare_event("event1", &event).unwrap();

    let fields = vec![
        Value::SignedInt(Int {
            bit_width: 8,
            high: 0,
            low: 1,
        }),
        Value::UnsignedInt(Uint {
            bit_width: 8,
            high: 0,
            low: 2,
        }),
        Value::Address(Address([3; 20])),
        Value::Bool(true),
        Value::FixedBytes(vec![4]),
        Value::Function(ExternalFunction {
            address: Address([6; 20]),
            selector: Selector([7, 8, 9, 10]),
        }),
        Value::Bytes(vec![11, 12]),
        Value::String("abcd".to_string()),
    ];
    sqlite
        .update(
            &[],
            &[Log {
                event: "event1",
                block_number: 1,
                log_index: 2,
                transaction_index: 3,
                address: Address([4; 20]),
                fields,
            }],
        )
        .unwrap();

    let mut statement = sqlite.connection.prepare("SELECT * from event1_0").unwrap();
    let mut rows = statement.query(()).unwrap();
    let mut count = 0;
    while let Some(row) = rows.next().unwrap() {
        assert_eq!(row.as_ref().column_count(), FIXED_COLUMNS_COUNT + 8);
        for i in 0..row.as_ref().column_count() {
            let name = row.as_ref().column_name(i).unwrap();
            let value = row.get_ref(i).unwrap();
            println!("{name}: {value:?}");
        }
        println!();
        count += 1;
    }
    assert_eq!(count, 1);

    let mut function = vec![6; 20];
    function.extend([7, 8, 9, 10]);
    let expected = vec![
        Cell::Integer(1),
        Cell::Integer(2),
        Cell::Integer(3),
        Cell::Blob(vec![4; 20]),
        Cell::Blob(word(1)),
        Cell::Blob(word(2)),
        Cell::Blob(vec![3; 20]),
        Cell::Integer(1),
        Cell::Blob(vec![4]),
        Cell::Blob(function),
        Cell::Blob(vec![11, 12]),
        Cell::Blob(b"abcd".to_vec()),
    ];
    assert_eq!(sqlite.rows("event1_0"), vec![expected]);
    assert_eq!(
        sqlite.column_names("event1_0"),
        vec![
            "block_number",
            "log_index",
            "transaction_index",
            "address",
            "field0",
            "field1",
            "field2",
            "field3",
            "field4",
            "field5",
            "field6",
            "field7",
        ]
    );
}

#[test]
fn with_array() {
    let mut sqlite = Sqlite::new_for_test();
    let values = vec![Kind::DynamicArray(Box::new(Kind::Tuple(vec![
        Kind::Bool,
        Kind::String,
    ])))];
    let event = event_descriptor(values);
    sqlite.prepare_event("event1", &event).unwrap();

    let log = Log {
        event: "event1",
        block_number: 0,
        fields: vec![Value::DynamicArray(
            Kind::Tuple(vec![Kind::Bool, Kind::String]),
            vec![
                Value::Tuple(vec![
                    Value::Bool(false),
                    Value::String("hello".to_string()),
                ]),
                Value::Tuple(vec![
                    Value::Bool(true),
                    Value::String("world".to_string()),
                ]),
            ],
        )],
        ..Default::default()
    };
    sqlite.update(&[], &[log]).unwrap();

    let log = Log {
        event: "event1",
        block_number: 1,
        fields: vec![Value::DynamicArray(
            Kind::Tuple(vec![Kind::Bool, Kind::String]),
            vec![],
        )],
        ..Default::default()
    };
    sqlite.update(&[], &[log]).unwrap();

    let mut statement = sqlite.connection.prepare("SELECT * from event1_0").unwrap();
    let mut rows = statement.query(()).unwrap();
    while let Some(row) = rows.next().unwrap() {
        assert_eq!(row.as_ref().column_count(), FIXED_COLUMNS_COUNT);
        for i in 0..row.as_ref().column_count() {
            let column = row.get_ref(i).unwrap();
            println!("{:?}", column);
        }
        println!();
    }

    let mut statement = sqlite.connection.prepare("SELECT * from event1_1").unwrap();
    let mut rows = statement.query(()).unwrap();
    while let Some(row) = rows.next().unwrap() {
        assert_eq!(row.as_ref().column_count(), FIXED_COLUMNS_COUNT + 3);
        for i in 0..row.as_ref().column_count() {
            let column = row.get_ref(i).unwrap();
            println!("{:?}", column);
        }
        println!();
    }

    assert_eq!(sqlite.rows("event1_0").len(), 2);
    let fixed = |block: i64| {
        vec![
            Cell::Integer(block),
            Cell::Integer(0),
            Cell::Integer(0),
            Cell::Blob(vec![0; 20]),
        ]
    };
    let mut first = fixed(0);
    first.extend([
        Cell::Integer(0),
        Cell::Integer(0),
        Cell::Blob(b"hello".to_vec()),
    ]);
    let mut second = fixed(0);
    second.extend([
        Cell::Integer(1),
        Cell::Integer(1),
        Cell::Blob(b"world".to_vec()),
    ]);
    let mut statement = sqlite
        .connection
        .prepare("SELECT * FROM event1_1 ORDER BY array_index")
        .unwrap();
    let mut rows = statement.query(()).unwrap();
    let mut found: Vec<Vec<Cell>> = Vec::new();
    while let Some(row) = rows.next().unwrap() {
        found.push((0..7).map(|i| row.get(i).unwrap()).collect());
    }
    assert_eq!(found, vec![first, second]);
}

#[test]
fn bool_and_array_of_tuples() {
    let mut sqlite = Sqlite::new_for_test();
    let element = Kind::Tuple(vec![Kind::Bool, Kind::String]);
    let event = event_descriptor(vec![
        Kind::Bool,
        Kind::DynamicArray(Box::new(element.clone())),
    ]);
    sqlite.prepare_event("scenario", &event).unwrap();
    let log = Log {
        event: "scenario",
        block_number: 7,
        log_index: 1,
        fields: vec![
            Value::Bool(true),
            Value::DynamicArray(
                element,
                vec![
                    Value::Tuple(vec![Value::Bool(false), Value::String("a".to_string())]),
                    Value::Tuple(vec![Value::Bool(true), Value::String("b".to_string())]),
                ],
            ),
        ],
        ..Default::default()
    };
    sqlite.update(&[], &[log]).unwrap();
    assert_eq!(sqlite.column_names("scenario_0").len(), 5);
    assert_eq!(sqlite.column_names("scenario_0")[4], "c0");
    assert_eq!(
        sqlite.column_names("scenario_1"),
        vec![
            "block_number",
            "log_index",
            "transaction_index",
            "address",
            "array_index",
            "c0",
            "c1",
        ]
    );
    let root = sqlite.rows("scenario_0");
    assert_eq!(root.len(), 1);
    assert_eq!(root[0][4], Cell::Integer(1));
    let mut statement = sqlite
        .connection
        .prepare("SELECT array_index, c0, c1 FROM scenario_1 ORDER BY rowid")
        .unwrap();
    let mut rows = statement.query(()).unwrap();
    let mut found: Vec<(i64, i64, Vec<u8>)> = Vec::new();
    while let Some(row) = rows.next().unwrap() {
        found.push((row.get(0).unwrap(), row.get(1).unwrap(), row.get(2).unwrap()));
    }
    assert_eq!(found, vec![(0, 0, b"a".to_vec()), (1, 1, b"b".to_vec())]);
}

#[test]
fn event_blocks() {
    let mut sqlite = Sqlite::new_for_test();
    sqlite
        .prepare_event("event", &event_descriptor(vec![]))
        .unwrap();
    let result = sqlite.event_block("event").unwrap();
    assert_eq!(result.indexed, 0);
    assert_eq!(result.finalized, 0);
    let blocks = EventBlock {
        event: "event",
        block: Block {
            indexed: 2,
            finalized: 3,
        },
    };
    sqlite.update(&[blocks], &[]).unwrap();
    let result = sqlite.event_block("event").unwrap();
    assert_eq!(result.indexed, 2);
    assert_eq!(result.finalized, 3);
}

#[test]
fn remove() {
    let mut sqlite = Sqlite::new_for_test();
    sqlite
        .prepare_event("event", &event_descriptor(vec![]))
        .unwrap();
    sqlite
        .prepare_event("eventAAA", &event_descriptor(vec![]))
        .unwrap();
    sqlite
        .update(
            &[],
            &[
                Log {
                    event: "event",
                    block_number: 1,
                    ..Default::default()
                },
                Log {
                    event: "event",
                    block_number: 2,
                    ..Default::default()
                },
                Log {
                    event: "event",
                    block_number: 5,
                    ..Default::default()
                },
                Log {
                    event: "event",
                    block_number: 6,
                    ..Default::default()
                },
            ],
        )
        .unwrap();

    let rows = |sqlite: &Sqlite| {
        let count: i64 = sqlite
            .connection
            .query_row("SELECT COUNT(*) FROM event_0", (), |row| row.get(0))
            .unwrap();
        count
    };
    assert_eq!(rows(&sqlite), 4);

    sqlite
        .remove(&[Uncle {
            event: "event",
            number: 6,
        }])
        .unwrap();
    assert_eq!(rows(&sqlite), 3);
    assert_eq!(sqlite.event_block("event").unwrap().indexed, 5);

    sqlite
        .remove(&[Uncle {
            event: "eventAAA",
            number: 1,
        }])
        .unwrap();
    assert_eq!(rows(&sqlite), 3);

    sqlite
        .remove(&[Uncle {
            event: "event",
            number: 1,
        }])
        .unwrap();
    assert_eq!(rows(&sqlite), 0);
    assert_eq!(sqlite.event_block("event").unwrap().indexed, 0);
}

#[test]
fn remove_keeps_the_rows_of_earlier_blocks() {
    let mut sqlite = Sqlite::new_for_test();
    let event = event_descriptor(vec![Kind::Bool, Kind::DynamicArray(Box::new(Kind::Bool))]);
    sqlite.prepare_event("event", &event).unwrap();
    let log = |block_number: u64| Log {
        event: "event",
        block_number,
        fields: vec![
            Value::Bool(true),
            Value::DynamicArray(Kind::Bool, vec![Value::Bool(false), Value::Bool(true)]),
        ],
        ..Default::default()
    };
    sqlite
        .update(
            &[EventBlock {
                event: "event",
                block: Block {
                    indexed: 9,
                    finalized: 2,
                },
            }],
            &[log(3), log(4), log(5), log(9)],
        )
        .unwrap();
    assert_eq!(sqlite.rows("event_0").len(), 4);
    assert_eq!(sqlite.rows("event_1").len(), 8);
    sqlite
        .remove(&[Uncle {
            event: "event",
            number: 5,
        }])
        .unwrap();
    let blocks = |sqlite: &Sqlite, table: &str| -> Vec<Cell> {
        sqlite
            .rows(table)
            .into_iter()
            .map(|row| row[0].clone())
            .collect()
    };
    assert_eq!(
        blocks(&sqlite, "event_0"),
        vec![Cell::Integer(3), Cell::Integer(4)]
    );
    assert_eq!(
        blocks(&sqlite, "event_1"),
        vec![
            Cell::Integer(3),
            Cell::Integer(3),
            Cell::Integer(4),
            Cell::Integer(4),
        ]
    );
    assert_eq!(
        sqlite.event_block("event").unwrap(),
        Block {
            indexed: 4,
            finalized: 2,
        }
    );
}

#[test]
fn remove_of_block_zero_changes_nothing() {
    let mut sqlite = Sqlite::new_for_test();
    sqlite
        .prepare_event("event", &event_descriptor(vec![]))
        .unwrap();
    sqlite
        .update(
            &[],
            &[Log {
                event: "event",
                block_number: 3,
                ..Default::default()
            }],
        )
        .unwrap();
    let uncles = [
        Uncle {
            event: "event",
            number: 2,
        },
        Uncle {
            event: "event",
            number: 0,
        },
    ];
    assert_eq!(sqlite.remove(&uncles), Err(format!("{:?}", Error::InvalidUncle)));
    assert_eq!(sqlite.rows("event_0").len(), 1);
}

#[test]
fn named_tuple() {
    let event = r#"
event OrderPlacement(
    address indexed sender,
    (
      address sellToken,
      address buyToken,
      address receiver,
      uint256 sellAmount,
      uint256 buyAmount,
      uint32 validTo,
      bytes32 appData,
      uint256 feeAmount,
      bytes32 kind,
      bool partiallyFillable,
      bytes32 sellTokenBalance,
      bytes32 buyTokenBalance
    ) order,
    (
      uint8 scheme,
      bytes data
    ) signature,
    bytes data
  )
"#;
    let event = solabi::abi::EventDescriptor::parse_declaration(event).unwrap();
    let mut s = Sqlite::new_for_test();
    s.prepare_event("event", &descriptor_of(&event)).unwrap();
    let names = s.column_names("event_0");
    assert_eq!(names.len(), FIXED_COLUMNS_COUNT + 16);
    assert_eq!(names[4], "c0");
    assert_eq!(names[19], "c15");
}

#[test]
fn prepare_event_twice() {
    let mut sqlite = Sqlite::new_for_test();
    let event = event_descriptor(vec![Kind::Bool]);
    sqlite.prepare_event("event", &event).unwrap();
    sqlite
        .update(
            &[EventBlock {
                event: "event",
                block: Block {
                    indexed: 4,
                    finalized: 1,
                },
            }],
            &[Log {
                event: "event",
                fields: vec![Value::Bool(true)],
                ..Default::default()
            }],
        )
        .unwrap();
    sqlite.prepare_event("event", &event).unwrap();
    assert!(sqlite.inner.prepare_event("event", &event).unwrap().is_none());
    assert_eq!(sqlite.rows("event_0").len(), 1);
    assert_eq!(
        sqlite.event_block("event").unwrap(),
        Block {
            indexed: 4,
            finalized: 1,
        }
    );
    assert_eq!(
        sqlite.prepare_event("event", &event_descriptor(vec![Kind::Bytes])),
        Err(format!("{:?}", SchemaError::DescriptorMismatch))
    );
    assert_eq!(
        sqlite.prepare_event("e-v-e-n-t", &event_descriptor(vec![])),
        Err(format!("{:?}", SchemaError::DescriptorMismatch))
    );
}

#[test]
fn cursor_of_an_event_without_one_is_not_set() {
    let mut sqlite = Sqlite::new_for_test();
    sqlite
        .prepare_event("event", &event_descriptor(vec![]))
        .unwrap();
    sqlite
        .connection
        .execute("DELETE FROM event_block", ())
        .unwrap();
    let blocks = EventBlock {
        event: "event",
        block: Block {
            indexed: 2,
            finalized: 3,
        },
    };
    assert_eq!(
        sqlite.update(&[blocks], &[]),
        Err(format!("{:?}", Error::Consistency))
    );
    assert_eq!(
        sqlite.event_block("event"),
        Err(format!("{:?}", Error::UnknownEvent))
    );
}

#[test]
fn keywords_are_safe_names_of_tables_and_columns() {
    let mut sqlite = Sqlite::new_for_test();
    let event = EventDescriptor {
        name: "Select".to_string(),
        inputs: vec![
            EventField {
                name: "from".to_string(),
                kind: Kind::Bool,
                indexed: false,
            },
            EventField {
                name: "1 where".to_string(),
                kind: Kind::Bool,
                indexed: false,
            },
            EventField {
                name: "order; --".to_string(),
                kind: Kind::Bool,
                indexed: false,
            },
        ],
        anonymous: false,
    };
    sqlite.prepare_event("table", &event).unwrap();
    assert_eq!(
        sqlite.column_names("table__0")[4..],
        ["from_", "_1where", "order_"]
    );
}

#[test]
fn negative_integers_keep_their_sign() {
    let mut sqlite = Sqlite::new_for_test();
    let event = event_descriptor(vec![Kind::SignedInt(256), Kind::UnsignedInt(256)]);
    sqlite.prepare_event("numbers", &event).unwrap();
    let fields = vec![
        Value::SignedInt(Int {
            bit_width: 256,
            high: -1,
            low: u128::MAX - 1,
        }),
        Value::UnsignedInt(Uint {
            bit_width: 256,
            high: 0x0102_0304_0506_0708_090a_0b0c_0d0e_0f10,
            low: 0x1112_1314_1516_1718_191a_1b1c_1d1e_1f20,
        }),
    ];
    sqlite
        .update(
            &[],
            &[Log {
                event: "numbers",
                fields,
                ..Default::default()
            }],
        )
        .unwrap();
    let mut minus_two = vec![0xff; 32];
    minus_two[31] = 0xfe;
    let counting: Vec<u8> = (1..=32).collect();
    let rows = sqlite.rows("numbers_0");
    assert_eq!(rows[0][4], Cell::Blob(minus_two));
    assert_eq!(rows[0][5], Cell::Blob(counting));
}
