use rustle_my_net::input::util::{copy_samples, split_data};
use rustle_my_net::nn::learning::{
    backprop, check_san, evaluate, have_largest, largest_input, mini_batches, sgd, Action, Step,
    Unsanitised,
};
use rustle_my_net::scalar::{ONE, ZERO};
use rustle_my_net::structs::Data;

fn bits(values: &[f32]) -> Vec<u32> {
    values.iter().map(|x| x.to_bits()).collect()
}

fn numbered(n: usize) -> Vec<Data> {
    (0..n).map(|i| Data::new(vec![(i as f32).to_bits()], (i % 3) as u8, 3)).collect()
}

fn numbers(samples: &[Data]) -> Vec<usize> {
    samples.iter().map(|d| f32::from_bits(d.get_input()[0]) as usize).collect()
}

#[test]
fn hundred_samples_in_batches_of_thirty_two() {
    let batches = mini_batches(100, 32);
    assert_eq!(batches, vec![(0, 32), (32, 64), (64, 96), (96, 100)]);
    let sizes: Vec<usize> = batches.iter().map(|b| b.1 - b.0).collect();
    assert_eq!(sizes, vec![32, 32, 32, 4]);
    let mut seen = vec![0usize; 100];
    for (start, end) in batches {
        for s in start..end {
            seen[s] += 1;
        }
    }
    assert!(seen.iter().all(|n| *n == 1));
}

#[test]
fn batches_at_the_edges() {
    assert_eq!(mini_batches(0, 5), Vec::new());
    assert_eq!(mini_batches(3, 5), vec![(0, 3)]);
    assert_eq!(mini_batches(5, 5), vec![(0, 5)]);
    assert_eq!(mini_batches(6, 5), vec![(0, 5), (5, 6)]);
    assert_eq!(mini_batches(3, 1), vec![(0, 1), (1, 2), (2, 3)]);
    assert_eq!(mini_batches(2, usize::MAX), vec![(0, 2)]);
}

#[test]
fn sample_has_a_one_hot_class_vector() {
    let d = Data::new(bits(&[5.1, 3.5, 1.4, 0.2]), 0, 3);
    assert_eq!(d.get_input(), &bits(&[5.1, 3.5, 1.4, 0.2]));
    assert_eq!(d.get_class_vector(), &bits(&[1.0, 0.0, 0.0]));
    let d = Data::new(Vec::new(), 2, 4);
    assert_eq!(d.get_class_vector(), &vec![ZERO, ZERO, ONE, ZERO]);
    let e = d.duplicate();
    assert_eq!(e.get_class_vector(), d.get_class_vector());
    assert_eq!(e.get_input(), d.get_input());
}

#[test]
fn evaluate_counts_matching_largest_entries() {
    let test_data = vec![
        Data::new(bits(&[0.0]), 0, 3),
        Data::new(bits(&[1.0]), 1, 3),
        Data::new(bits(&[2.0]), 2, 3),
        Data::new(bits(&[3.0]), 1, 3),
    ];
    let outputs = vec![
        bits(&[0.8, 0.1, 0.3]),
        bits(&[0.8, 0.1, 0.3]),
        bits(&[0.2, 0.1, 0.3]),
        bits(&[0.2, 0.9, 0.3]),
    ];
    assert_eq!(evaluate(&outputs, &test_data), 3);
    assert_eq!(evaluate(&Vec::new(), &Vec::new()), 0);
}

#[test]
fn evaluate_counts_an_exact_one_hot_answer() {
    let test_data = vec![Data::new(bits(&[0.3]), 2, 3), Data::new(bits(&[0.4]), 0, 3)];
    let outputs = vec![bits(&[0.0, 0.0, 1.0]), bits(&[1.0, 0.0, 0.0])];
    assert_eq!(evaluate(&outputs, &test_data), 2);
}

#[test]
fn evaluate_takes_the_first_of_equal_entries() {
    let test_data = vec![Data::new(bits(&[0.3]), 0, 3), Data::new(bits(&[0.3]), 1, 3)];
    let outputs = vec![bits(&[0.5, 0.5, 0.1]), bits(&[0.5, 0.5, 0.1])];
    assert_eq!(evaluate(&outputs, &test_data), 1);
}

#[test]
fn split_sets_the_last_samples_aside() {
    let mut input = numbered(10);
    let (training, test) = split_data(&mut input, 3);
    assert_eq!(training.len(), 7);
    assert_eq!(test.len(), 3);
    let order = numbers(&input);
    assert_eq!(numbers(&training), order[0..7].to_vec());
    assert_eq!(numbers(&test), order[7..10].to_vec());
    let mut sorted = order.clone();
    sorted.sort();
    assert_eq!(sorted, (0..10).collect::<Vec<usize>>());
}

#[test]
fn split_with_nothing_or_everything_set_aside() {
    let mut input = numbered(4);
    let (training, test) = split_data(&mut input, 0);
    assert_eq!((training.len(), test.len()), (4, 0));
    let (training, test) = split_data(&mut input, 4);
    assert_eq!((training.len(), test.len()), (0, 4));
}

#[test]
fn split_brings_the_samples_into_a_new_order() {
    let mut input = numbered(200);
    let (training, test) = split_data(&mut input, 20);
    let mut order = numbers(&training);
    order.extend(numbers(&test));
    assert_ne!(order, (0..200).collect::<Vec<usize>>());
    order.sort();
    assert_eq!(order, (0..200).collect::<Vec<usize>>());
}

#[test]
fn copies_of_a_range_of_samples() {
    let input = numbered(6);
    assert_eq!(numbers(&copy_samples(&input, 2, 5)), vec![2, 3, 4]);
    assert_eq!(numbers(&copy_samples(&input, 3, 3)), Vec::<usize>::new());
}

#[test]
fn training_run_hands_out_every_sample_once_in_each_epoch() {
    let mut run = sgd(numbered(100), 3, 32);
    let mut actions = 0;
    for epoch in 1..=3u32 {
        let mut seen = vec![0usize; 100];
        let mut sizes = Vec::new();
        loop {
            actions += 1;
            match run.next_action() {
                Action::Train { start, end } => {
                    sizes.push(end - start);
                    for n in numbers(&run.samples()[start..end]) {
                        seen[n] += 1;
                    }
                }
                Action::EpochDone { epoch: e } => {
                    assert_eq!(e, epoch);
                    break;
                }
                Action::Finished => panic!("finished early"),
            }
        }
        assert_eq!(sizes, vec![32, 32, 32, 4]);
        assert!(seen.iter().all(|n| *n == 1));
    }
    assert_eq!(run.next_action(), Action::Finished);
    assert_eq!(run.next_action(), Action::Finished);
    assert_eq!(actions, 3 * 5);
}

#[test]
fn training_run_shuffles_at_the_start_of_an_epoch() {
    let mut run = sgd(numbered(200), 1, 200);
    assert_eq!(numbers(run.samples()), (0..200).collect::<Vec<usize>>());
    assert_eq!(run.next_action(), Action::Train { start: 0, end: 200 });
    assert_ne!(numbers(run.samples()), (0..200).collect::<Vec<usize>>());
    let order = numbers(run.samples());
    assert_eq!(run.next_action(), Action::EpochDone { epoch: 1 });
    assert_eq!(numbers(run.samples()), order);
}

#[test]
fn training_run_without_samples_or_epochs() {
    let mut run = sgd(Vec::new(), 2, 10);
    assert_eq!(run.next_action(), Action::EpochDone { epoch: 1 });
    assert_eq!(run.next_action(), Action::EpochDone { epoch: 2 });
    assert_eq!(run.next_action(), Action::Finished);
    let mut run = sgd(numbered(3), 0, 10);
    assert_eq!(run.next_action(), Action::Finished);
}

#[test]
fn largest_input_of_both_sets() {
    let train = vec![
        Data::new(bits(&[0.5, 3.0, -7.0]), 0, 2),
        Data::new(bits(&[2.5, 1.0, 0.0]), 1, 2),
    ];
    let test = vec![Data::new(bits(&[4.5, -9.0, 0.0]), 0, 2)];
    assert!(have_largest(&train) && have_largest(&test));
    assert_eq!(f32::from_bits(largest_input(&train, &test)), 4.5);
    assert_eq!(f32::from_bits(largest_input(&test, &train)), 4.5);
    assert_eq!(f32::from_bits(largest_input(&train, &Vec::new())), 3.0);
    assert_eq!(f32::from_bits(largest_input(&Vec::new(), &Vec::new())), 0.0);
    let below = vec![Data::new(bits(&[-0.5, -3.0]), 0, 2)];
    assert_eq!(f32::from_bits(largest_input(&below, &Vec::new())), 0.0);
}

#[test]
fn inputs_without_a_largest_entry_are_recognised() {
    assert!(have_largest(&Vec::new()));
    assert!(!have_largest(&vec![Data::new(Vec::new(), 0, 2)]));
    assert!(!have_largest(&vec![Data::new(bits(&[0.5, f32::NAN]), 0, 2)]));
}

#[test]
fn inputs_above_one_are_found() {
    let fine = || vec![Data::new(bits(&[0.5, 1.0, -7.0]), 0, 2), Data::new(bits(&[0.0]), 1, 2)];
    let above = || vec![Data::new(bits(&[0.5]), 0, 2), Data::new(bits(&[0.2, 1.0000001]), 1, 2)];
    assert_eq!(check_san(&fine(), &fine()), Ok(()));
    assert_eq!(check_san(&fine(), &Vec::new()), Ok(()));
    assert_eq!(check_san(&above(), &fine()), Err(Unsanitised::Train));
    assert_eq!(check_san(&fine(), &above()), Err(Unsanitised::Test));
    assert_eq!(check_san(&above(), &above()), Err(Unsanitised::Train));
}

#[test]
fn input_can_be_changed_in_place() {
    let mut d = Data::new(bits(&[2.0, 4.0]), 1, 2);
    for x in d.get_input_mut().iter_mut() {
        *x = (f32::from_bits(*x) * 0.25).to_bits();
    }
    assert_eq!(d.get_input(), &bits(&[0.5, 1.0]));
    assert_eq!(d.get_class_vector(), &bits(&[0.0, 1.0]));
}

#[test]
fn backpropagation_goes_forward_then_backward() {
    let mut steps = Vec::new();
    let mut step = backprop(None, 3);
    while let Some(s) = step {
        steps.push(s);
        step = backprop(step, 3);
    }
    assert_eq!(
        steps,
        vec![
            Step::Forward { layer: 0 },
            Step::Forward { layer: 1 },
            Step::Forward { layer: 2 },
            Step::OutputError { layer: 2 },
            Step::HiddenError { layer: 1 },
            Step::HiddenError { layer: 0 },
        ]
    );
}

#[test]
fn backpropagation_through_one_step_or_none() {
    assert_eq!(backprop(None, 0), None);
    assert_eq!(backprop(None, 1), Some(Step::Forward { layer: 0 }));
    assert_eq!(backprop(Some(Step::Forward { layer: 0 }), 1), Some(Step::OutputError { layer: 0 }));
    assert_eq!(backprop(Some(Step::OutputError { layer: 0 }), 1), None);
    assert_eq!(backprop(Some(Step::HiddenError { layer: 0 }), 5), None);
    assert_eq!(
        backprop(Some(Step::Forward { layer: usize::MAX }), 5),
        Some(Step::OutputError { layer: usize::MAX })
    );
}
