use angr_bad::cfg::Function;
use angr_bad::ir::Block;
use angr_bad::program::Program;

#[test]
fn same_name_keeps_one_entry() {
    let mut p = Program::new();
    p.insert("main".to_string(), Function::new());
    let mut later = Function::new();
    later.add_block(Block(vec![]));
    p.insert("main".to_string(), later);
    assert_eq!(p.len(), 1);
    // The later insertion wins: its function carries one block.
    assert_eq!(p.funcs[0].1.block_count(), 1);
}

#[test]
fn iteration_is_lexicographic() {
    let mut p = Program::new();
    p.insert("b".to_string(), Function::new());
    p.insert("a".to_string(), Function::new());
    p.insert("c".to_string(), Function::new());
    p.insert("ab".to_string(), Function::new());
    let names: Vec<&str> = p.funcs.iter().map(|e| e.0.as_str()).collect();
    assert_eq!(names, ["a", "ab", "b", "c"]);
}

#[test]
fn render_in_name_order() {
    let mut p = Program::new();
    p.insert("beta".to_string(), Function::new());
    p.insert("alpha".to_string(), Function::new());
    assert_eq!(p.render().unwrap(), "fn alpha():\nfn beta():\n");
}

#[test]
fn empty_function_renders_entry_index() {
    let mut f = Function::new();
    f.add_block(Block(vec![]));
    assert_eq!(f.render().unwrap(), "0:\n");
    assert_eq!(Function::new().render().unwrap(), "");
}
