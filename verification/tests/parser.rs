use st_core::cursor::Cursor;
use st_core::parser::{match_item, take, then, transform, Parser, ParserStep};

#[test]
fn test_match() {
    let parser = match_item(
        match_item(
            match_item(
                Parser::<i32, Option<i32>>::new(),
                |item| if item == 1 { Ok(()) } else { Err(Some(item)) },
                None,
            ),
            |item| if item == 2 { Ok(()) } else { Err(Some(item)) },
            None,
        ),
        |item| if item == 3 { Ok(()) } else { Err(Some(item)) },
        None,
    );

    let mut input = Cursor::new(vec![1, 2, 3]);
    assert_eq!(parser.execute(&mut input), Ok(()));
    let mut input = Cursor::new(vec![1, 3, 3]);
    assert_eq!(parser.execute(&mut input), Err(Some(3)));
    let mut input = Cursor::new(vec![1]);
    assert_eq!(parser.execute(&mut input), Err(None));
}

#[test]
fn test_take() {
    let parser = take(
        take(
            match_item(
                Parser::<i32, Option<i32>>::new(),
                |item| if item == 1 { Ok(()) } else { Err(Some(item)) },
                None,
            ),
            |item| {
                if item == 2 {
                    Ok("Two")
                } else {
                    Err(Some(item))
                }
            },
            None,
        ),
        |item| if item == 3 { Ok(3.0) } else { Err(Some(item)) },
        None,
    );

    let mut input = Cursor::new(vec![1, 2, 3]);
    assert_eq!(parser.execute(&mut input), Ok(((((), "Two")), 3.0)));
    let mut input = Cursor::new(vec![1, 3, 3]);
    assert_eq!(parser.execute(&mut input), Err(Some(3)));
    let mut input = Cursor::new(vec![1]);
    assert_eq!(parser.execute(&mut input), Err(None));
}

#[test]
fn test_transform() {
    let parser = transform(
        take(
            take(
                match_item(
                    Parser::<i32, Option<i32>>::new(),
                    |item| if item == 1 { Ok(()) } else { Err(Some(item)) },
                    None,
                ),
                |item| {
                    if item == 2 {
                        Ok("Two")
                    } else {
                        Err(Some(item))
                    }
                },
                None,
            ),
            |item| if item == 3 { Ok(3.0) } else { Err(Some(item)) },
            None,
        ),
        |((_, a), b)| (a, b),
    );

    let mut input = Cursor::new(vec![1, 2, 3]);
    assert_eq!(parser.execute(&mut input), Ok(("Two", 3.0)));
    let mut input = Cursor::new(vec![1, 3, 3]);
    assert_eq!(parser.execute(&mut input), Err(Some(3)));
    let mut input = Cursor::new(vec![1]);
    assert_eq!(parser.execute(&mut input), Err(None));
}

#[test]
fn test_then() {
    let parser = then(
        match_item(
            Parser::<i32, Option<i32>>::new(),
            |item| if item == 1 { Ok(()) } else { Err(Some(item)) },
            None,
        ),
        transform(
            take(
                take(
                    Parser::<i32, Option<i32>>::new(),
                    |item| {
                        if item == 2 {
                            Ok("Two")
                        } else {
                            Err(Some(item))
                        }
                    },
                    None,
                ),
                |item| if item == 3 { Ok(3.0) } else { Err(Some(item)) },
                None,
            ),
            |((_, a), b): (((), &str), f64)| [a.to_string(), format!("{b}")],
        ),
    );

    let mut input = Cursor::new(vec![1, 2, 3]);
    assert_eq!(
        parser.execute(&mut input),
        Ok(((), ["Two".into(), "3".into()]))
    );
    let mut input = Cursor::new(vec![1, 3, 3]);
    assert_eq!(parser.execute(&mut input), Err(Some(3)));
    let mut input = Cursor::new(vec![1]);
    assert_eq!(parser.execute(&mut input), Err(None));
}

#[test]
fn test_optional_skips_without_consuming() {
    // the test declines the peeked item: nothing is consumed and the
    // following take still sees that very item
    let parser = take(
        st_core::parser::optional(
            match_item(
                Parser::<i32, Option<i32>>::new(),
                |item| if item == 1 { Ok(()) } else { Err(Some(item)) },
                None,
            ),
            |item: &i32| *item == 9,
            match_item(
                Parser::<i32, Option<i32>>::new(),
                |item| if item == 9 { Ok(()) } else { Err(Some(item)) },
                None,
            ),
        ),
        |item| if item == 2 { Ok(item) } else { Err(Some(item)) },
        None,
    );

    let mut input = Cursor::new(vec![1, 2]);
    assert_eq!(parser.execute(&mut input), Ok((((), None), 2)));
    assert_eq!(input.len(), 0);
}

#[test]
fn test_optional_commits() {
    let parser = st_core::parser::optional(
        match_item(
            Parser::<i32, Option<i32>>::new(),
            |item| if item == 1 { Ok(()) } else { Err(Some(item)) },
            None,
        ),
        |item: &i32| *item == 9,
        take(
            Parser::<i32, Option<i32>>::new(),
            |item| if item == 9 { Ok(item) } else { Err(Some(item)) },
            None,
        ),
    );

    let mut input = Cursor::new(vec![1, 9]);
    assert_eq!(parser.execute(&mut input), Ok(((), Some(((), 9)))));
    let mut input = Cursor::new(vec![1]);
    assert_eq!(parser.execute(&mut input), Ok(((), None)));
}

#[test]
fn test_optional_take_transform_extracts() {
    let parser = st_core::parser::optional_take_transform(
        Parser::<i32, Option<i32>>::new(),
        |item: &i32| if *item > 10 { Some(*item) } else { None },
        take(
            Parser::<i32, Option<i32>>::new(),
            |item| Ok::<i32, Option<i32>>(item * 2),
            None,
        ),
        |tested, (_, doubled): ((), i32)| (tested, doubled),
    );

    let mut input = Cursor::new(vec![20, 3]);
    assert_eq!(parser.execute(&mut input), Ok(((), Some((20, 40)))));
    let mut input = Cursor::new(vec![5, 3]);
    assert_eq!(parser.execute(&mut input), Ok(((), None)));
    assert_eq!(input.len(), 2);
}

#[test]
fn test_optional_match_transform_reshapes() {
    let parser = st_core::parser::optional_match_transform(
        Parser::<i32, Option<i32>>::new(),
        |item: &i32| *item == 7,
        take(
            Parser::<i32, Option<i32>>::new(),
            |item| Ok::<i32, Option<i32>>(item + 1),
            None,
        ),
        |(_, v): ((), i32)| format!("{v}"),
    );

    let mut input = Cursor::new(vec![7]);
    assert_eq!(parser.execute(&mut input), Ok(((), Some("8".to_string()))));
}
