use dify_console::order::import_order;

fn comps(p: &str) -> Vec<String> {
    p.split('/').map(String::from).collect()
}

#[test]
fn files_ordered_by_components() {
    let paths = vec![comps("workflows/b.yml"), comps("chatflows/z.yml"), comps("workflows/a.yml"), comps("a-b/x.yml"), comps("a/x.yml")];
    let order = import_order(&paths);
    let sorted: Vec<String> = order.iter().map(|&i| paths[i].join("/")).collect();
    assert_eq!(sorted, vec!["a/x.yml", "a-b/x.yml", "chatflows/z.yml", "workflows/a.yml", "workflows/b.yml"]);
}

#[test]
fn order_matches_std_path_order() {
    let names = ["x/b.yaml", "x.yml", "x/a.yml", "y", "x-y/1.yml", "X/2.yml", "中/文.yml", "a/b/c.yml", "a/b.yml"];
    let mut std_sorted: Vec<std::path::PathBuf> = names.iter().map(std::path::PathBuf::from).collect();
    std_sorted.sort();
    let paths: Vec<Vec<String>> = names.iter().map(|n| comps(n)).collect();
    let order = import_order(&paths);
    let ours: Vec<std::path::PathBuf> = order.iter().map(|&i| std::path::PathBuf::from(names[i])).collect();
    assert_eq!(ours, std_sorted);
}

#[test]
fn equal_paths_keep_their_order_and_empty_list() {
    let paths = vec![comps("a"), comps("b"), comps("a")];
    assert_eq!(import_order(&paths), vec![0, 2, 1]);
    assert!(import_order(&vec![]).is_empty());
}
