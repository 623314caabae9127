use mc_cauldron_brew::format_actions;
use mc_cauldron_brew::run_search;
use mc_cauldron_brew::Action;
use mc_cauldron_brew::LiquidData;
use mc_cauldron_brew::PotionIngredient::{
    BlazePowder, FermentedSpiderEye, GhastTear, MagmaCream, SpiderEye, Sugar,
};

fn all_actions() -> Vec<Action> {
    vec![
        Action::AddIngredient(Sugar),
        Action::AddIngredient(GhastTear),
        Action::AddIngredient(SpiderEye),
        Action::AddIngredient(FermentedSpiderEye),
        Action::AddIngredient(BlazePowder),
        Action::AddIngredient(MagmaCream),
        Action::Dilute,
        Action::AddNetherWart,
    ]
}

#[test]
fn format_actions_uses_the_code_table() {
    assert_eq!(format_actions(&all_actions()), "SGEFBCWN");
    assert_eq!(format_actions(&Vec::new()), "");
}

#[test]
fn search_records_the_empty_path_for_plain_water() {
    let table = run_search();
    assert_eq!(table.entries.len(), 32768);
    assert_eq!(table.entries[0], Some(Vec::new()));
    assert!(table.reached_count() >= 1);
}

#[test]
fn every_recorded_path_replays_to_its_state() {
    let table = run_search();
    let mut reached: usize = 0;
    let mut max_len: usize = 0;
    for (i, entry) in table.entries.iter().enumerate() {
        if let Some(path) = entry {
            let mut state = LiquidData::default();
            for action in path {
                state = action.apply_to(state);
            }
            assert_eq!(state.0 as usize, i);
            reached += 1;
            if path.len() > max_len {
                max_len = path.len();
            }
        }
    }
    assert_eq!(reached, table.reached_count());
    assert_eq!(max_len, table.max_path_len());
}

// An independent single-queue breadth-first distance computation must
// agree with the length of every recorded path, and reach the same states.
#[test]
fn recorded_paths_have_minimal_length() {
    let table = run_search();
    let mut dist: Vec<i32> = vec![-1; 32768];
    dist[0] = 0;
    let mut queue: Vec<u16> = vec![0];
    let mut head: usize = 0;
    while head < queue.len() {
        let s = queue[head];
        head += 1;
        for action in all_actions() {
            let t = action.apply_to(LiquidData(s)).0;
            if dist[t as usize] < 0 {
                dist[t as usize] = dist[s as usize] + 1;
                queue.push(t);
            }
        }
    }
    for i in 0..32768usize {
        match &table.entries[i] {
            Some(path) => assert_eq!(path.len() as i32, dist[i], "state {}", i),
            None => assert_eq!(dist[i], -1, "state {}", i),
        }
    }
}
