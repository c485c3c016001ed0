use crown::context::Context;




#[test]
fn test_create() {
    let ctx = Context::new(3, 3);
    assert_eq!(ctx.lines_before().len(), 0);
    assert_eq!(ctx.lines_after().len(), 0);
}


#[test]
fn test_add_line() {
    let mut ctx = Context::new(3, 3);
    ctx.add_line("hello");
    assert_eq!(ctx.lines_after().len(), 1);
    assert_eq!(ctx.lines_after()[0], "hello");
}


#[test]
fn test_clear() {
    let mut ctx = Context::new(3, 3);
    ctx.add_line("hello");
    ctx.clear();
    assert_eq!(ctx.lines_after().len(), 0);
}


#[test]
fn test_zero_bounds() {
    let mut ctx = Context::new(0, 0);
    ctx.add_line("hello");
    assert_eq!(ctx.lines_after().len(), 0);
}


#[test]
fn test_max_capacity() {
    let mut ctx = Context::new(2, 2);
    ctx.add_line("a");
    ctx.add_line("b");
    ctx.add_line("c");
    assert_eq!(ctx.lines_after().len(), 2);
}
