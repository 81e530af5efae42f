use file_sampler::{
    draw, eligible_entries, guided_walk, parse_whitelist, position_of, random_walk, sample,
    PathSet, Probe, Progress, Sampler, Walk, Whitelist, MAX_STEPS,
};

fn strings(items: &[&str]) -> Vec<String> {
    items.iter().map(|item| item.to_string()).collect()
}

fn dir(entries: &[&str]) -> Probe {
    Probe::Directory(strings(entries))
}

fn whitelist_of(arg: &str) -> Whitelist {
    parse_whitelist(Some(&arg.to_string()))
}

/// A small tree: two directories with files, an empty one, and entries that
/// a whitelist of `*.tmp` and `skip` rules out.
fn small_tree(path: &str) -> Probe {
    match path {
        "root" => dir(&["root/a", "root/b", "root/empty", "root/x.tmp", "root/skip"]),
        "root/a" => dir(&["root/a/1.txt", "root/a/2.txt", "root/a/y.tmp"]),
        "root/b" => dir(&["root/b/c"]),
        "root/b/c" => dir(&["root/b/c/3.txt"]),
        "root/empty" => dir(&[]),
        "root/skip" => dir(&["root/skip/hidden.txt"]),
        "root/a/1.txt" | "root/a/2.txt" | "root/b/c/3.txt" => Probe::File,
        "root/x.tmp" | "root/a/y.tmp" | "root/skip/hidden.txt" => Probe::File,
        _ => Probe::Other,
    }
}

/// Runs a sampler to its end against `tree`, choosing at random.
fn run(root: &str, wanted: usize, whitelist: Whitelist, tree: &dyn Fn(&str) -> Probe) -> (Vec<String>, bool) {
    let mut sampler = Sampler::new(root.to_string(), wanted, whitelist);
    let mut probes = 0usize;
    while let Some(path) = sampler.request().cloned() {
        sampler.step(&tree(&path));
        probes += 1;
        assert!(probes < 10_000_000);
    }
    assert!(sampler.is_done());
    let exhausted = sampler.is_exhausted();
    (sampler.into_results(), exhausted)
}

/// The same with the first eligible entry entered everywhere.
fn run_first(root: &str, wanted: usize, whitelist: Whitelist, tree: &dyn Fn(&str) -> Probe) -> (Vec<String>, bool) {
    let mut sampler = Sampler::new(root.to_string(), wanted, whitelist);
    while let Some(path) = sampler.request().cloned() {
        sampler.step_with(&tree(&path), 0);
    }
    let exhausted = sampler.is_exhausted();
    (sampler.into_results(), exhausted)
}

#[test]
fn step_budget_is_one_thousand() {
    assert_eq!(MAX_STEPS, 1000);
}

#[test]
fn path_set_keeps_each_path_once_in_order() {
    let mut set = PathSet::new();
    assert_eq!(set.len(), 0);
    assert!(set.insert("b".to_string()));
    assert!(set.insert("a".to_string()));
    assert!(!set.insert("b".to_string()));
    assert_eq!(set.len(), 2);
    assert!(set.contains(&"a".to_string()));
    assert!(!set.contains(&"c".to_string()));
    let none = PathSet::new();
    assert_eq!(set.difference(&none), strings(&["b", "a"]));
}

#[test]
fn path_set_difference_drops_the_others() {
    let mut visited = PathSet::new();
    for path in ["d1", "d2", "d3", "d4"] {
        visited.insert(path.to_string());
    }
    let mut terminal = PathSet::new();
    terminal.insert("d3".to_string());
    terminal.insert("d1".to_string());
    terminal.insert("elsewhere".to_string());
    assert_eq!(visited.difference(&terminal), strings(&["d2", "d4"]));
    assert_eq!(terminal.difference(&visited), strings(&["elsewhere"]));
}

#[test]
fn eligible_entries_drops_whitelisted_names() {
    let whitelist = whitelist_of("*.tmp,skip");
    let entries = strings(&["root/a", "root/x.tmp", "root/skip", "root/b", "root/skipper"]);
    assert_eq!(
        eligible_entries(&entries, &whitelist),
        strings(&["root/a", "root/b", "root/skipper"])
    );
    assert_eq!(eligible_entries(&entries, &Whitelist::empty()), entries);
    assert_eq!(eligible_entries(&Vec::new(), &whitelist), Vec::<String>::new());
}

#[test]
fn position_of_finds_the_first_equal_item() {
    let items = strings(&["x", "y", "z", "y"]);
    assert_eq!(position_of(&items, &Some("x".to_string())), 0);
    assert_eq!(position_of(&items, &Some("y".to_string())), 1);
    assert_eq!(position_of(&items, &Some("z".to_string())), 2);
    assert_eq!(position_of(&items, &Some("w".to_string())), 0);
    assert_eq!(position_of(&items, &None), 0);
}

#[test]
fn draw_stays_within_the_items() {
    let items = strings(&["p", "q", "r"]);
    let mut seen = [false; 3];
    for _ in 0..400 {
        let pick = draw(&items);
        assert!(pick < 3);
        seen[pick] = true;
    }
    assert_eq!(seen, [true, true, true]);
    assert_eq!(draw(&strings(&["only"])), 0);
    assert_eq!(draw(&Vec::new()), 0);
}

#[test]
fn walk_ends_at_a_file() {
    let mut walk = Walk::new("root/f".to_string(), 5);
    let mut terminal = PathSet::new();
    let mut visited = PathSet::new();
    let progress = guided_walk(&mut walk, &Probe::File, 0, &mut terminal, &mut visited, &Whitelist::empty());
    assert_eq!(progress, Progress::Found);
    assert_eq!(walk.current(), "root/f");
    assert_eq!(walk.start(), "root/f");
    assert_eq!(walk.steps_left(), 5);
    assert_eq!(visited.len(), 0);
    assert_eq!(terminal.len(), 0);
}

#[test]
fn walk_enters_the_picked_entry_and_records_it() {
    let mut walk = Walk::new("root".to_string(), 5);
    let mut terminal = PathSet::new();
    let mut visited = PathSet::new();
    let whitelist = whitelist_of("*.tmp");
    let probe = dir(&["root/x.tmp", "root/a", "root/b"]);
    let progress = guided_walk(&mut walk, &probe, 1, &mut terminal, &mut visited, &whitelist);
    assert_eq!(progress, Progress::Continue);
    assert_eq!(walk.current(), "root/b");
    assert_eq!(walk.start(), "root");
    assert_eq!(walk.steps_left(), 4);
    assert!(visited.contains(&"root/b".to_string()));
    assert_eq!(visited.len(), 1);
    assert_eq!(terminal.len(), 0);
}

#[test]
fn pick_counts_round_the_eligible_entries() {
    let probe = dir(&["root/a", "root/b", "root/c"]);
    for (pick, expected) in [(0, "root/a"), (2, "root/c"), (3, "root/a"), (7, "root/b")] {
        let mut walk = Walk::new("root".to_string(), 5);
        let mut terminal = PathSet::new();
        let mut visited = PathSet::new();
        guided_walk(&mut walk, &probe, pick, &mut terminal, &mut visited, &Whitelist::empty());
        assert_eq!(walk.current(), expected);
    }
}

#[test]
fn dead_end_at_the_start_is_terminal() {
    let mut walk = Walk::new("root".to_string(), 5);
    let mut terminal = PathSet::new();
    let mut visited = PathSet::new();
    let progress = guided_walk(&mut walk, &dir(&[]), 0, &mut terminal, &mut visited, &Whitelist::empty());
    assert_eq!(progress, Progress::Failed);
    assert!(terminal.contains(&"root".to_string()));
    assert_eq!(terminal.len(), 1);
    assert_eq!(visited.len(), 0);
    assert_eq!(walk.current(), "root");
    assert_eq!(walk.steps_left(), 5);
}

#[test]
fn directory_with_only_whitelisted_entries_is_terminal() {
    let mut walk = Walk::new("root".to_string(), 1000);
    let mut terminal = PathSet::new();
    terminal.insert("elsewhere".to_string());
    let mut visited = PathSet::new();
    visited.insert("seen".to_string());
    let whitelist = whitelist_of("*.tmp,*.bak");
    let probe = dir(&["root/x.tmp", "root/y.bak"]);
    let progress = random_walk(&mut walk, &probe, &mut terminal, &mut visited, &whitelist);
    assert_eq!(progress, Progress::Failed);
    assert_eq!(terminal.difference(&PathSet::new()), strings(&["elsewhere", "root"]));
    assert_eq!(visited.difference(&PathSet::new()), strings(&["seen"]));
}

#[test]
fn dead_end_at_a_visited_directory_is_terminal() {
    let mut walk = Walk::new("root".to_string(), 5);
    let mut terminal = PathSet::new();
    let mut visited = PathSet::new();
    let whitelist = whitelist_of("*.txt");
    let first = guided_walk(&mut walk, &dir(&["root/sub"]), 0, &mut terminal, &mut visited, &whitelist);
    assert_eq!(first, Progress::Continue);
    let second = guided_walk(&mut walk, &dir(&["root/sub/a.txt"]), 0, &mut terminal, &mut visited, &whitelist);
    assert_eq!(second, Progress::Failed);
    assert!(terminal.contains(&"root/sub".to_string()));
    assert_eq!(terminal.len(), 1);
    assert_eq!(visited.len(), 1);
}

#[test]
fn what_is_neither_file_nor_directory_costs_steps_until_the_walk_fails() {
    let mut walk = Walk::new("root/socket".to_string(), 3);
    let mut terminal = PathSet::new();
    let mut visited = PathSet::new();
    let whitelist = Whitelist::empty();
    assert_eq!(guided_walk(&mut walk, &Probe::Other, 0, &mut terminal, &mut visited, &whitelist), Progress::Continue);
    assert_eq!(walk.steps_left(), 2);
    assert_eq!(guided_walk(&mut walk, &Probe::Other, 0, &mut terminal, &mut visited, &whitelist), Progress::Continue);
    assert_eq!(guided_walk(&mut walk, &Probe::Other, 0, &mut terminal, &mut visited, &whitelist), Progress::Failed);
    assert_eq!(walk.steps_left(), 0);
    assert_eq!(walk.current(), "root/socket");
    assert_eq!(terminal.len(), 0);
    assert_eq!(visited.len(), 0);
}

#[test]
fn spent_budget_fails_the_walk_without_a_terminal_mark() {
    let mut walk = Walk::new("d0".to_string(), 2);
    let mut terminal = PathSet::new();
    let mut visited = PathSet::new();
    let whitelist = Whitelist::empty();
    assert_eq!(guided_walk(&mut walk, &dir(&["d0/d1"]), 0, &mut terminal, &mut visited, &whitelist), Progress::Continue);
    assert_eq!(guided_walk(&mut walk, &dir(&["d0/d1/d2"]), 0, &mut terminal, &mut visited, &whitelist), Progress::Failed);
    assert_eq!(walk.steps_left(), 0);
    assert_eq!(terminal.len(), 0);
    assert_eq!(visited.len(), 2);
    assert_eq!(guided_walk(&mut walk, &Probe::File, 0, &mut terminal, &mut visited, &whitelist), Progress::Failed);
}

#[test]
fn walk_without_budget_fails_at_once() {
    let mut walk = Walk::new("root".to_string(), 0);
    let mut terminal = PathSet::new();
    let mut visited = PathSet::new();
    assert_eq!(random_walk(&mut walk, &Probe::File, &mut terminal, &mut visited, &Whitelist::empty()), Progress::Failed);
    assert_eq!(random_walk(&mut walk, &dir(&["root/a"]), &mut terminal, &mut visited, &Whitelist::empty()), Progress::Failed);
    assert_eq!(visited.len(), 0);
}

#[test]
fn random_walk_enters_an_eligible_entry() {
    let whitelist = whitelist_of("*.tmp");
    let mut entered = [false; 2];
    for _ in 0..200 {
        let mut walk = Walk::new("root".to_string(), 5);
        let mut terminal = PathSet::new();
        let mut visited = PathSet::new();
        let probe = dir(&["root/a", "root/x.tmp", "root/b"]);
        let progress = random_walk(&mut walk, &probe, &mut terminal, &mut visited, &whitelist);
        assert_eq!(progress, Progress::Continue);
        assert_eq!(visited.len(), 1);
        assert!(visited.contains(walk.current()));
        match walk.current().as_str() {
            "root/a" => entered[0] = true,
            "root/b" => entered[1] = true,
            other => panic!("entered {}", other),
        }
    }
    assert_eq!(entered, [true, true]);
}

#[test]
fn no_file_wanted_means_no_probe() {
    let sampler = Sampler::new("root".to_string(), 0, Whitelist::empty());
    assert!(sampler.is_done());
    assert!(sampler.request().is_none());
    assert!(!sampler.is_exhausted());
    assert_eq!(sampler.wanted(), 0);
    assert_eq!(sampler.into_results(), Vec::<String>::new());
}

#[test]
fn first_request_is_the_root() {
    let sampler = Sampler::new("some/root".to_string(), 2, Whitelist::empty());
    assert!(!sampler.is_done());
    assert_eq!(sampler.request().map(|p| p.as_str()), Some("some/root"));
    assert_eq!(sampler.wanted(), 2);
}

#[test]
fn root_that_is_a_file_is_sampled_every_time() {
    for wanted in [1usize, 2, 5] {
        let (paths, exhausted) = run("file.txt", wanted, Whitelist::empty(), &|_| Probe::File);
        assert_eq!(paths, vec!["file.txt".to_string(); wanted]);
        assert!(!exhausted);
    }
}

#[test]
fn root_file_is_sampled_even_if_its_name_is_whitelisted() {
    let (paths, exhausted) = run("a.txt", 2, whitelist_of("*.txt"), &|_| Probe::File);
    assert_eq!(paths, strings(&["a.txt", "a.txt"]));
    assert!(!exhausted);
}

#[test]
fn root_with_only_whitelisted_entries_gives_nothing() {
    let tree = |path: &str| match path {
        "root" => dir(&["root/a.txt"]),
        "root/a.txt" => Probe::File,
        _ => Probe::Other,
    };
    for wanted in [1usize, 3] {
        let mut sampler = Sampler::new("root".to_string(), wanted, whitelist_of("*.txt"));
        let mut asked = Vec::new();
        while let Some(path) = sampler.request().cloned() {
            sampler.step(&tree(&path));
            asked.push(path);
        }
        assert_eq!(asked, vec!["root".to_string(); wanted]);
        assert!(!sampler.is_exhausted());
        assert_eq!(sampler.visited().len(), 0);
        assert_eq!(sampler.terminal().difference(sampler.visited()), strings(&["root"]));
        assert!(sampler.into_results().is_empty());
    }
}

#[test]
fn two_whitelisted_files_give_nothing() {
    let tree = |path: &str| match path {
        "root" => dir(&["root/x.tmp", "root/y.bak"]),
        "root/x.tmp" | "root/y.bak" => Probe::File,
        _ => Probe::Other,
    };
    let (paths, exhausted) = run("root", 4, whitelist_of("*.tmp,*.bak"), &tree);
    assert!(paths.is_empty());
    assert!(!exhausted);
}

#[test]
fn empty_root_is_terminal_and_walked_once_a_round() {
    let mut sampler = Sampler::new("root".to_string(), 2, Whitelist::empty());
    sampler.step(&dir(&[]));
    assert!(!sampler.is_done());
    assert!(sampler.terminal().contains(&"root".to_string()));
    assert_eq!(sampler.terminal().len(), 1);
    assert_eq!(sampler.visited().len(), 0);
    assert_eq!(sampler.request().map(|p| p.as_str()), Some("root"));
    sampler.step(&dir(&[]));
    assert!(sampler.is_done());
    assert!(!sampler.is_exhausted());
    assert_eq!(sampler.terminal().len(), 1);
    assert!(sampler.request().is_none());
    assert!(sampler.into_results().is_empty());
}

#[test]
fn root_that_empties_later_is_terminal_beside_what_was_visited() {
    let mut sampler = Sampler::new("root".to_string(), 3, Whitelist::empty());
    sampler.step_with(&dir(&["root/f"]), 0);
    sampler.step_with(&Probe::File, 0);
    assert_eq!(sampler.request().map(|p| p.as_str()), Some("root/f"));
    sampler.step_with(&Probe::Other, 0);
    for _ in 1..MAX_STEPS {
        assert_eq!(sampler.request().map(|p| p.as_str()), Some("root/f"));
        sampler.step_with(&Probe::Other, 0);
    }
    assert!(sampler.terminal().contains(&"root/f".to_string()));
    assert_eq!(sampler.request().map(|p| p.as_str()), Some("root"));
    sampler.step_with(&dir(&[]), 0);
    assert_eq!(sampler.terminal().difference(sampler.visited()), strings(&["root"]));
    assert_eq!(sampler.terminal().len(), 2);
    assert_eq!(sampler.visited().len(), 1);
    assert!(!sampler.is_exhausted());
    assert!(!sampler.is_done());
    sampler.step_with(&dir(&[]), 0);
    assert!(sampler.is_done());
    assert!(!sampler.is_exhausted());
    assert_eq!(sampler.into_results(), strings(&["root/f"]));
}

#[test]
fn single_file_below_one_directory_is_found_three_times() {
    let tree = |path: &str| match path {
        "root" => dir(&["root/sub"]),
        "root/sub" => dir(&["root/sub/f.txt"]),
        "root/sub/f.txt" => Probe::File,
        _ => Probe::Other,
    };
    let (paths, exhausted) = run("root", 3, Whitelist::empty(), &tree);
    assert_eq!(paths, strings(&["root/sub/f.txt", "root/sub/f.txt", "root/sub/f.txt"]));
    assert!(!exhausted);
}

#[test]
fn single_file_run_visits_directory_and_file_and_marks_neither() {
    let tree = |path: &str| match path {
        "root" => dir(&["root/sub"]),
        "root/sub" => dir(&["root/sub/f.txt"]),
        "root/sub/f.txt" => Probe::File,
        _ => Probe::Other,
    };
    let mut sampler = Sampler::new("root".to_string(), 3, Whitelist::empty());
    let mut asked = Vec::new();
    while let Some(path) = sampler.request().cloned() {
        sampler.step(&tree(&path));
        asked.push(path);
    }
    assert_eq!(
        asked,
        strings(&["root", "root/sub", "root/sub/f.txt", "root/sub", "root/sub/f.txt", "root/sub/f.txt"])
    );
    assert_eq!(sampler.visited().len(), 2);
    assert!(sampler.visited().contains(&"root/sub".to_string()));
    assert!(sampler.visited().contains(&"root/sub/f.txt".to_string()));
    assert!(!sampler.visited().contains(&"root".to_string()));
    assert_eq!(sampler.terminal().len(), 0);
}

#[test]
fn run_stops_as_soon_as_enough_files_are_found() {
    let tree = |path: &str| match path {
        "root" => dir(&["root/sub"]),
        "root/sub" => dir(&["root/sub/f.txt"]),
        "root/sub/f.txt" => Probe::File,
        _ => Probe::Other,
    };
    let mut sampler = Sampler::new("root".to_string(), 1, Whitelist::empty());
    let mut probes = 0;
    while let Some(path) = sampler.request().cloned() {
        sampler.step(&tree(&path));
        probes += 1;
    }
    assert_eq!(probes, 3);
    assert_eq!(sampler.into_results(), strings(&["root/sub/f.txt"]));
}

#[test]
fn never_more_files_than_wanted() {
    for wanted in 0..12usize {
        for _ in 0..20 {
            let (paths, _) = run("root", wanted, whitelist_of("*.tmp,skip"), &small_tree);
            assert!(paths.len() <= wanted);
        }
    }
}

#[test]
fn every_result_is_a_reachable_file_that_the_whitelist_lets_through() {
    let allowed = strings(&["root/a/1.txt", "root/a/2.txt", "root/b/c/3.txt"]);
    let mut seen = [false; 3];
    for _ in 0..200 {
        let (paths, _) = run("root", 6, whitelist_of("*.tmp,skip"), &small_tree);
        for path in paths {
            let place = allowed.iter().position(|a| *a == path);
            assert!(place.is_some(), "{} is not a file that may be found", path);
            seen[place.unwrap()] = true;
        }
    }
    assert_eq!(seen, [true, true, true]);
}

#[test]
fn terminal_directories_are_the_root_or_visited_ones() {
    for _ in 0..100 {
        let mut sampler = Sampler::new("root".to_string(), 5, whitelist_of("*.tmp,skip"));
        while let Some(path) = sampler.request().cloned() {
            sampler.step(&small_tree(&path));
            for path in sampler.terminal().difference(sampler.visited()) {
                assert_eq!(path, "root");
            }
        }
        if sampler.is_exhausted() {
            assert_eq!(sampler.terminal().len(), sampler.visited().len());
            assert!(sampler.visited().difference(sampler.terminal()).is_empty());
        }
    }
}

#[test]
fn dead_end_as_the_only_visited_directory_exhausts_the_run() {
    let (paths, exhausted) = run_first("root", 2, whitelist_of("*.tmp,skip"), &|path| match path {
        "root" => dir(&["root/empty", "root/a"]),
        other => small_tree(other),
    });
    assert!(paths.is_empty());
    assert!(exhausted);
}

#[test]
fn guided_run_retries_visited_directories_in_order() {
    let whitelist = whitelist_of("*.tmp,skip");
    let mut sampler = Sampler::new("root".to_string(), 4, whitelist);
    let mut asked = Vec::new();
    while let Some(path) = sampler.request().cloned() {
        sampler.step_with(&small_tree(&path), 1);
        asked.push(path);
    }
    assert_eq!(
        asked,
        strings(&[
            "root", "root/b", "root/b/c", "root/b/c/3.txt",
            "root/b", "root/b/c", "root/b/c/3.txt",
            "root/b/c", "root/b/c/3.txt",
            "root/b/c/3.txt",
        ])
    );
    assert!(!sampler.is_exhausted());
    assert_eq!(sampler.into_results(), vec!["root/b/c/3.txt".to_string(); 4]);
}

#[test]
fn failed_retry_marks_its_directory_terminal() {
    let tree = |path: &str| match path {
        "root" => dir(&["root/d"]),
        "root/d" => dir(&["root/d/f", "root/d/e"]),
        "root/d/f" => Probe::File,
        "root/d/e" => dir(&[]),
        _ => Probe::Other,
    };
    let mut sampler = Sampler::new("root".to_string(), 3, Whitelist::empty());
    let picks = [0usize, 0, 0, 1, 1];
    for pick in picks {
        let path = sampler.request().cloned().expect("the run goes on");
        sampler.step_with(&tree(&path), pick);
    }
    assert!(sampler.terminal().contains(&"root/d/e".to_string()));
    assert!(sampler.terminal().contains(&"root/d".to_string()));
    assert_eq!(sampler.terminal().len(), 2);
    assert_eq!(sampler.visited().len(), 3);
    assert_eq!(sampler.request().map(|p| p.as_str()), Some("root/d/f"));
    sampler.step_with(&Probe::File, 0);
    assert_eq!(sampler.request().map(|p| p.as_str()), Some("root"));
    assert!(!sampler.is_done());
}

#[test]
fn rounds_are_limited_to_the_number_wanted() {
    let tree = |path: &str| match path {
        "root" => dir(&["root/d", "root/e"]),
        _ => dir(&[]),
    };
    let mut sampler = Sampler::new("root".to_string(), 1, Whitelist::empty());
    let mut asked = Vec::new();
    let picks = [0usize, 0];
    for pick in picks {
        let path = sampler.request().cloned().expect("the run goes on");
        sampler.step_with(&tree(&path), pick);
        asked.push(path);
    }
    assert_eq!(asked, strings(&["root", "root/d"]));
    assert!(sampler.is_done());
    assert!(sampler.is_exhausted());
}

#[test]
fn root_that_is_neither_file_nor_directory_spends_the_budget() {
    let mut sampler = Sampler::new("root".to_string(), 2, Whitelist::empty());
    let mut probes = 0usize;
    while let Some(path) = sampler.request().cloned() {
        assert_eq!(path, "root");
        sampler.step(&Probe::Other);
        probes += 1;
    }
    assert_eq!(probes, MAX_STEPS);
    assert!(sampler.is_exhausted());
    assert!(sampler.into_results().is_empty());
}

#[test]
fn step_after_the_end_changes_nothing() {
    let mut sampler = Sampler::new("root".to_string(), 1, Whitelist::empty());
    sampler.step(&Probe::File);
    assert!(sampler.is_done());
    sampler.step(&Probe::File);
    sampler.step_with(&dir(&["root/a"]), 0);
    assert!(sampler.is_done());
    assert_eq!(sampler.visited().len(), 0);
    assert_eq!(sampler.into_results(), strings(&["root"]));
}

#[test]
fn same_file_may_be_sampled_more_than_once() {
    let tree = |path: &str| match path {
        "root" => dir(&["root/only.txt"]),
        "root/only.txt" => Probe::File,
        _ => Probe::Other,
    };
    let (paths, exhausted) = run("root", 4, Whitelist::empty(), &tree);
    assert_eq!(paths, vec!["root/only.txt".to_string(); 4]);
    assert!(!exhausted);
}

#[test]
fn sample_finds_the_single_file_three_times() {
    let found = sample("root".to_string(), 3, Whitelist::empty(), |path: &String| {
        match path.as_str() {
            "root" => dir(&["root/sub"]),
            "root/sub" => dir(&["root/sub/f.txt"]),
            "root/sub/f.txt" => Probe::File,
            _ => Probe::Other,
        }
    });
    assert_eq!(found.paths, strings(&["root/sub/f.txt", "root/sub/f.txt", "root/sub/f.txt"]));
    assert!(!found.exhausted);
}

#[test]
fn sample_of_whitelisted_files_is_empty() {
    let found = sample("root".to_string(), 2, whitelist_of("*.tmp,*.bak"), |path: &String| {
        match path.as_str() {
            "root" => dir(&["root/x.tmp", "root/y.bak"]),
            _ => Probe::File,
        }
    });
    assert!(found.paths.is_empty());
    assert!(!found.exhausted);
}

#[test]
fn sample_of_a_root_file_is_that_file_each_time() {
    let found = sample("only".to_string(), 3, Whitelist::empty(), |_: &String| Probe::File);
    assert_eq!(found.paths, strings(&["only", "only", "only"]));
    assert!(!found.exhausted);
}

#[test]
fn sample_of_nothing_wanted_looks_at_nothing() {
    let found = sample("root".to_string(), 0, Whitelist::empty(), |path: &String| {
        panic!("looked at {}", path)
    });
    assert!(found.paths.is_empty());
    assert!(!found.exhausted);
}

#[test]
fn sample_holds_only_files_that_may_be_found() {
    let allowed = strings(&["root/a/1.txt", "root/a/2.txt", "root/b/c/3.txt"]);
    for wanted in 0..8usize {
        for _ in 0..20 {
            let found = sample("root".to_string(), wanted, whitelist_of("*.tmp,skip"), |path: &String| {
                small_tree(path)
            });
            assert!(found.paths.len() <= wanted);
            for path in &found.paths {
                assert!(allowed.contains(path));
            }
        }
    }
}

#[test]
fn sample_ends_in_a_tree_that_never_ends() {
    let found = sample("d".to_string(), 1, Whitelist::empty(), |path: &String| {
        if path.len() < 40 {
            Probe::Directory(vec![format!("{}/d", path)])
        } else {
            Probe::Other
        }
    });
    assert!(found.paths.is_empty());
}
