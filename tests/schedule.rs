use std::collections::hash_map::DefaultHasher;
use std::hash::{Hash, Hasher};

use ember::label::{PhaseLabel, RawLabel, RawPhaseLabel, RawStageLabel, StageLabel};
use ember::schedule::{
    contains_label, insert_label, PhaseSchedule, PhaseScheduleCoercion, PhaseScheduleEntry,
    ScheduleError,
};

#[derive(Hash, Clone, Copy)]
enum Step {
    A,
    B,
    C,
    D,
}

impl PhaseLabel for Step {
    fn raw_label(&self) -> RawPhaseLabel {
        RawPhaseLabel::from(RawLabel::new(self, "Step"))
    }
}

#[derive(Hash)]
enum Other {
    A,
}

impl PhaseLabel for Other {
    fn raw_label(&self) -> RawPhaseLabel {
        RawPhaseLabel::from(RawLabel::new(self, "Other"))
    }
}

#[derive(Hash)]
struct Stage(u32);

impl StageLabel for Stage {
    fn raw_label(&self) -> RawStageLabel {
        RawStageLabel::from(RawLabel::new(self, "Stage"))
    }
}

fn std_hash<T: Hash>(t: &T) -> u64 {
    let mut h = DefaultHasher::new();
    t.hash(&mut h);
    h.finish()
}

fn position(order: &[usize], x: usize) -> usize {
    order.iter().position(|&v| v == x).unwrap()
}

fn is_permutation(order: &[usize], n: usize) -> bool {
    let mut seen = vec![false; n];
    for &v in order {
        if v >= n || seen[v] {
            return false;
        }
        seen[v] = true;
    }
    order.len() == n
}

#[test]
fn schedule_order() {
    let mut scheule = PhaseSchedule::new();

    scheule.add_phase(PhaseScheduleEntry::new().label(Step::A).before(Step::B));
    scheule.add_phase(PhaseScheduleEntry::new().label(Step::B));

    assert_eq!(scheule.phase_order().unwrap(), vec![0, 1]);
}

#[test]
fn detect_cyclic_dependency() {
    let mut scheule = PhaseSchedule::new();

    scheule.add_phase(PhaseScheduleEntry::new().label(Step::A).before(Step::B));
    scheule.add_phase(PhaseScheduleEntry::new().label(Step::B).before(Step::A));

    assert_eq!(
        scheule.phase_order().unwrap_err(),
        ScheduleError::CyclicDependency
    );
}

#[test]
fn empty_schedule_resolves_to_empty_order() {
    let schedule = PhaseSchedule::new();
    assert_eq!(schedule.phase_order().unwrap(), Vec::<usize>::new());
    let default = PhaseSchedule::default();
    assert_eq!(default.phase_order().unwrap(), Vec::<usize>::new());
}

#[test]
fn before_places_later_label_holder_after() {
    let mut schedule = PhaseSchedule::new();
    schedule.add_phase(PhaseScheduleEntry::new().label(Step::B));
    schedule.add_phase(PhaseScheduleEntry::new().label(Step::A).before(Step::B));
    let order = schedule.phase_order().unwrap();
    assert_eq!(order, vec![1, 0]);
}

#[test]
fn after_places_entry_behind_label_holder() {
    let mut schedule = PhaseSchedule::new();
    schedule.add_phase(PhaseScheduleEntry::new().label(Step::A).after(Step::B));
    schedule.add_phase(PhaseScheduleEntry::new().label(Step::B));
    let order = schedule.phase_order().unwrap();
    assert!(is_permutation(&order, 2));
    assert!(position(&order, 1) < position(&order, 0));
    assert_eq!(order, vec![1, 0]);
}

#[test]
fn self_reference_is_cyclic() {
    let mut schedule = PhaseSchedule::new();
    schedule.add_phase(PhaseScheduleEntry::new().label(Step::A).before(Step::A));
    assert_eq!(schedule.phase_order(), Err(ScheduleError::CyclicDependency));

    let mut schedule = PhaseSchedule::new();
    schedule.add_phase(PhaseScheduleEntry::new().label(Step::C));
    schedule.add_phase(PhaseScheduleEntry::new().label(Step::A).after(Step::A));
    assert_eq!(schedule.phase_order(), Err(ScheduleError::CyclicDependency));
}

#[test]
fn diamond_is_not_a_cycle() {
    let mut schedule = PhaseSchedule::new();
    schedule.add_phase(PhaseScheduleEntry::new().label(Step::D).after(Step::B).after(Step::C));
    schedule.add_phase(PhaseScheduleEntry::new().label(Step::B).after(Step::A));
    schedule.add_phase(PhaseScheduleEntry::new().label(Step::C).after(Step::A));
    schedule.add_phase(PhaseScheduleEntry::new().label(Step::A));
    let order = schedule.phase_order().unwrap();
    assert!(is_permutation(&order, 4));
    assert!(position(&order, 3) < position(&order, 1));
    assert!(position(&order, 3) < position(&order, 2));
    assert!(position(&order, 1) < position(&order, 0));
    assert!(position(&order, 2) < position(&order, 0));
    assert_eq!(order, vec![3, 1, 2, 0]);
}

#[test]
fn longer_cycle_is_detected() {
    let mut schedule = PhaseSchedule::new();
    schedule.add_phase(PhaseScheduleEntry::new().label(Step::A).before(Step::B));
    schedule.add_phase(PhaseScheduleEntry::new().label(Step::B).before(Step::C));
    schedule.add_phase(PhaseScheduleEntry::new().label(Step::C).before(Step::A));
    assert_eq!(schedule.phase_order(), Err(ScheduleError::CyclicDependency));
}

#[test]
fn shared_label_fans_out() {
    let mut schedule = PhaseSchedule::new();
    schedule.add_phase(PhaseScheduleEntry::new().label(Step::B));
    schedule.add_phase(PhaseScheduleEntry::new().label(Step::B).label(Step::C));
    schedule.add_phase(PhaseScheduleEntry::new().label(Step::A).before(Step::B));
    let order = schedule.phase_order().unwrap();
    assert!(is_permutation(&order, 3));
    assert!(position(&order, 2) < position(&order, 0));
    assert!(position(&order, 2) < position(&order, 1));
}

#[test]
fn unconstrained_entries_keep_their_positions() {
    let mut schedule = PhaseSchedule::new();
    schedule.add_phase(PhaseScheduleEntry::new().label(Step::A));
    schedule.add_phase(PhaseScheduleEntry::new());
    schedule.add_phase(PhaseScheduleEntry::new().label(Step::B));
    assert_eq!(schedule.phase_order().unwrap(), vec![0, 1, 2]);
}

#[test]
fn undeclared_label_adds_no_constraint() {
    let mut schedule = PhaseSchedule::new();
    schedule.add_phase(PhaseScheduleEntry::new().label(Step::A).before(Step::D));
    schedule.add_phase(PhaseScheduleEntry::new().label(Step::B).after(Step::C));
    assert_eq!(schedule.phase_order().unwrap(), vec![0, 1]);
}

#[test]
fn labels_of_another_type_do_not_match() {
    let mut schedule = PhaseSchedule::new();
    schedule.add_phase(PhaseScheduleEntry::new().label(Step::A).before(Other::A));
    schedule.add_phase(PhaseScheduleEntry::new().label(Other::A).before(Step::A));
    assert_eq!(schedule.phase_order(), Err(ScheduleError::CyclicDependency));

    let mut schedule = PhaseSchedule::new();
    schedule.add_phase(PhaseScheduleEntry::new().label(Step::A).before(Other::A));
    schedule.add_phase(PhaseScheduleEntry::new().label(Step::A).before(Step::A));
    assert_eq!(schedule.phase_order(), Err(ScheduleError::CyclicDependency));

    let mut schedule = PhaseSchedule::new();
    schedule.add_phase(PhaseScheduleEntry::new().label(Step::A).before(Other::A));
    schedule.add_phase(PhaseScheduleEntry::new().label(Step::B).before(Step::A));
    assert_eq!(schedule.phase_order().unwrap(), vec![1, 0]);
}

#[test]
fn resolving_twice_gives_the_same_order() {
    let mut schedule = PhaseSchedule::new();
    schedule.add_phase(PhaseScheduleEntry::new().label(Step::C).after(Step::A));
    schedule.add_phase(PhaseScheduleEntry::new().label(Step::A));
    schedule.add_phase(PhaseScheduleEntry::new().label(Step::B).before(Step::C));
    let first = schedule.phase_order().unwrap();
    let second = schedule.phase_order().unwrap();
    assert!(is_permutation(&first, 3));
    assert_eq!(first, second);
    assert_eq!(first, vec![1, 2, 0]);
}

#[test]
fn same_value_gives_equal_tokens() {
    let a1 = Step::A.raw_label();
    let a2 = Step::A.raw_label();
    assert!(a1 == a2);
    assert_eq!(a1.raw().hash(), a2.raw().hash());
    assert_eq!(a1.partial_cmp(&a2), Some(std::cmp::Ordering::Equal));
    assert_eq!(a1.raw().name(), "Step");
    assert!(a1.raw().ty().is_some());
    assert_eq!(a1.raw().ty(), a2.raw().ty());
}

#[test]
fn different_discriminants_give_unequal_tokens() {
    let a = Step::A.raw_label();
    let b = Step::B.raw_label();
    assert!(a != b);
    assert_ne!(a.raw().hash(), b.raw().hash());
    assert!(a.partial_cmp(&b).is_some());
    assert_ne!(a.partial_cmp(&b), Some(std::cmp::Ordering::Equal));
    assert_eq!(
        a.partial_cmp(&b),
        Some(a.raw().hash().cmp(&b.raw().hash()))
    );
}

#[test]
fn different_types_are_incomparable() {
    let a = Step::A.raw_label();
    let o = Other::A.raw_label();
    assert!(a != o);
    assert_eq!(a.partial_cmp(&o), None);
    assert_eq!(o.partial_cmp(&a), None);
}

#[test]
fn stage_tokens_follow_the_same_rules() {
    let one = Stage(1).raw_label();
    let one_again = Stage(1).raw_label();
    let two = Stage(2).raw_label();
    assert!(one == one_again);
    assert!(one != two);
    assert_ne!(one.raw().hash(), two.raw().hash());
    let wrapped = RawStageLabel::from_raw(RawLabel::new(&Stage(1), "Stage"));
    assert!(wrapped == one);
}

#[test]
fn raw_label_equality_is_tag_and_hash() {
    let x = RawLabel::new(&Step::A, "Step");
    let y = RawLabel::new(&Step::A, "Renamed");
    let z = RawLabel::new(&Other::A, "Step");
    assert!(x == y);
    assert_eq!(x.partial_cmp(&y), Some(std::cmp::Ordering::Equal));
    assert!(x != z);
    assert_eq!(x.partial_cmp(&z), None);
}

#[test]
fn duplicate_insertion_is_a_no_op() {
    let mut set: Vec<RawPhaseLabel> = Vec::new();
    insert_label(&mut set, Step::A.raw_label());
    insert_label(&mut set, Step::A.raw_label());
    insert_label(&mut set, Step::B.raw_label());
    assert_eq!(set.len(), 2);
    assert!(contains_label(&set, &Step::A.raw_label()));
    assert!(contains_label(&set, &Step::B.raw_label()));
    assert!(!contains_label(&set, &Step::C.raw_label()));

    let entry = PhaseScheduleEntry::new()
        .label(Step::A)
        .label(Step::A)
        .before(Step::B)
        .before(Step::B)
        .after(Step::C)
        .entry();
    assert_eq!(entry.labels.len(), 1);
    assert_eq!(entry.before.len(), 1);
    assert_eq!(entry.after.len(), 1);
}

#[test]
fn error_has_a_message() {
    assert_eq!(
        ScheduleError::CyclicDependency.message(),
        "cyclic dependency in schedule"
    );
}

#[test]
fn equal_tokens_hash_alike() {
    let x = RawLabel::new(&Step::A, "Step");
    let y = RawLabel::new(&Step::A, "Renamed");
    assert!(x == y);
    assert_eq!(std_hash(&x), std_hash(&y));
    assert_eq!(std_hash(&Step::A.raw_label()), std_hash(&Step::A.raw_label()));
}

#[test]
fn from_parts_keeps_its_fields() {
    let tag = std::any::TypeId::of::<Step>();
    let x = RawLabel::from_parts(Some(tag), String::from("Step"), 7);
    assert_eq!(x.ty(), Some(tag));
    assert_eq!(x.name(), "Step");
    assert_eq!(x.hash(), 7);
}

#[test]
fn untagged_tokens_match_on_name_and_hash() {
    let tag = std::any::TypeId::of::<Step>();
    let tagged = RawLabel::from_parts(Some(tag), String::from("Step"), 7);
    let untagged = RawLabel::from_parts(None, String::from("Step"), 7);
    let other_name = RawLabel::from_parts(None, String::from("Other"), 7);
    let other_hash = RawLabel::from_parts(None, String::from("Step"), 8);
    assert!(tagged == untagged);
    assert_eq!(tagged.partial_cmp(&untagged), Some(std::cmp::Ordering::Equal));
    assert!(untagged != other_name);
    assert_eq!(untagged.partial_cmp(&other_name), None);
    assert!(untagged != other_hash);
    assert_eq!(untagged.partial_cmp(&other_hash), Some(std::cmp::Ordering::Less));
}

#[test]
fn builders_keep_the_other_sets() {
    let entry = PhaseScheduleEntry::new().label(Step::A).before(Step::B);
    assert_eq!(entry.labels.len(), 1);
    assert_eq!(entry.before.len(), 1);
    assert_eq!(entry.after.len(), 0);
    assert!(contains_label(&entry.labels, &Step::A.raw_label()));
    assert!(contains_label(&entry.before, &Step::B.raw_label()));
    assert!(!contains_label(&entry.labels, &Step::B.raw_label()));
    let entry = entry.after(Step::C);
    assert_eq!(entry.labels.len(), 1);
    assert_eq!(entry.before.len(), 1);
    assert!(contains_label(&entry.after, &Step::C.raw_label()));
}

#[test]
fn capable_values_convert_into_tokens() {
    assert!(RawPhaseLabel::from(Step::A) == Step::A.raw_label());
    assert!(RawPhaseLabel::from(Step::A) != RawPhaseLabel::from(Step::B));
    assert!(RawStageLabel::from(Stage(3)) == Stage(3).raw_label());
    let via_raw = RawPhaseLabel::from(RawLabel::new(&Step::C, "Step"));
    assert!(via_raw == RawPhaseLabel::from(Step::C));
}
