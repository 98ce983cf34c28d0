use rustle_my_net::nn::learning::zero_gradient;
use rustle_my_net::nn::matrix::Matrix;
use rustle_my_net::nn::{count_parameters, ConfigError, Network};
use rustle_my_net::structs::Data;
use rustle_my_net::structs::serialnet::{FormatError, SerializableNet};

fn bits(values: &[f32]) -> Vec<u32> {
    values.iter().map(|x| x.to_bits()).collect()
}

fn ramp(n: usize) -> Vec<u32> {
    (0..n).map(|i| (i as f32 * 0.25 - 3.0).to_bits()).collect()
}

#[test]
fn matrix_is_stored_column_by_column() {
    let m = Matrix::from_column_vector(2, 3, bits(&[1.0, 2.0, 3.0, 4.0, 5.0, 6.0])).unwrap();
    assert_eq!(m.nrows(), 2);
    assert_eq!(m.ncols(), 3);
    assert_eq!(f32::from_bits(m.get(0, 0)), 1.0);
    assert_eq!(f32::from_bits(m.get(1, 0)), 2.0);
    assert_eq!(f32::from_bits(m.get(0, 1)), 3.0);
    assert_eq!(f32::from_bits(m.get(1, 2)), 6.0);
    assert_eq!(m.as_slice(), &bits(&[1.0, 2.0, 3.0, 4.0, 5.0, 6.0])[..]);
    assert_eq!(m.duplicate().into_vector(), bits(&[1.0, 2.0, 3.0, 4.0, 5.0, 6.0]));
}

#[test]
fn matrix_refuses_a_wrong_number_of_coefficients() {
    assert!(Matrix::from_column_vector(2, 3, bits(&[1.0, 2.0, 3.0, 4.0, 5.0])).is_none());
    assert!(Matrix::from_column_vector(2, 3, ramp(7)).is_none());
    assert!(Matrix::from_column_vector(usize::MAX, 2, ramp(2)).is_none());
    assert!(Matrix::from_column_vector(0, 5, Vec::new()).is_some());
}

#[test]
fn zero_matrix_has_the_shape_and_only_zeros() {
    let m = Matrix::new_zeros(3, 2);
    assert_eq!((m.nrows(), m.ncols()), (3, 2));
    assert_eq!(m.into_vector(), vec![0u32; 6]);
}

#[test]
fn network_needs_three_layers() {
    assert_eq!(
        Network::new(&[4, 3], &ramp(15)).unwrap_err(),
        ConfigError::TooFewLayers { actual: 2 }
    );
    assert_eq!(Network::new(&[], &Vec::new()).unwrap_err(), ConfigError::TooFewLayers { actual: 0 });
}

#[test]
fn network_needs_one_value_for_each_parameter() {
    // 5 * 4 + 5 + 3 * 5 + 3 = 43
    assert!(Network::new(&[4, 5, 3], &ramp(43)).is_ok());
    assert_eq!(
        Network::new(&[4, 5, 3], &ramp(42)).unwrap_err(),
        ConfigError::ParameterCount { expected: Some(43), actual: 42 }
    );
    assert_eq!(
        Network::new(&[4, 5, 3], &ramp(44)).unwrap_err(),
        ConfigError::ParameterCount { expected: Some(43), actual: 44 }
    );
    assert_eq!(
        Network::new(&[4, 5, 3], &Vec::new()).unwrap_err(),
        ConfigError::ParameterCount { expected: Some(43), actual: 0 }
    );
}

#[test]
fn network_of_four_five_three_has_the_shapes_of_its_layers() {
    let values = ramp(43);
    let nn = Network::new(&[4, 5, 3], &values).unwrap();
    assert!(nn.is_well_formed());
    assert_eq!(nn.get_layers(), &[4u8, 5, 3][..]);
    let shapes: Vec<(usize, usize)> =
        nn.get_weights().iter().map(|w| (w.nrows(), w.ncols())).collect();
    assert_eq!(shapes, vec![(5, 4), (3, 5)]);
    let lengths: Vec<usize> = nn.get_biases().iter().map(|b| b.len()).collect();
    assert_eq!(lengths, vec![5, 3]);
    assert_eq!(nn.get_weights()[0].as_slice(), &values[0..20]);
    assert_eq!(&nn.get_biases()[0][..], &values[20..25]);
    assert_eq!(nn.get_weights()[1].as_slice(), &values[25..40]);
    assert_eq!(&nn.get_biases()[1][..], &values[40..43]);
}

#[test]
fn gradient_accumulators_have_the_shapes_of_the_network() {
    let nn = Network::new(&[4, 5, 3], &ramp(43)).unwrap();
    let (nabla_b, nabla_w) = zero_gradient(&nn);
    let shapes: Vec<(usize, usize)> = nabla_w.iter().map(|w| (w.nrows(), w.ncols())).collect();
    assert_eq!(shapes, vec![(5, 4), (3, 5)]);
    let lengths: Vec<usize> = nabla_b.iter().map(|b| b.len()).collect();
    assert_eq!(lengths, vec![5, 3]);
    for w in nabla_w.iter() {
        assert!(w.as_slice().iter().all(|x| f32::from_bits(*x) == 0.0));
    }
    for b in nabla_b.iter() {
        assert!(b.iter().all(|x| f32::from_bits(*x) == 0.0));
    }
}

#[test]
fn parameters_can_be_changed_in_place() {
    let mut nn = Network::new(&[2, 3, 2], &ramp(17)).unwrap();
    nn.get_biases_mut()[1][0] = 9.5f32.to_bits();
    assert_eq!(f32::from_bits(nn.get_biases()[1][0]), 9.5);
    assert!(nn.is_well_formed());
    nn.get_weights_mut()[0] = Matrix::new_zeros(3, 2);
    assert!(nn.is_well_formed());
    assert_eq!(nn.get_weights()[0].as_slice(), &[0u32; 6][..]);
    nn.get_weights_mut()[0] = Matrix::new_zeros(2, 3);
    assert!(!nn.is_well_formed());
    nn.get_weights_mut()[0] = Matrix::new_zeros(3, 2);
    nn.get_biases_mut().pop();
    assert!(!nn.is_well_formed());
}

#[test]
fn stored_network_reads_back_bit_for_bit() {
    let values = ramp(43);
    let nn = Network::new(&[4, 5, 3], &values).unwrap();
    let record = SerializableNet::from(nn);
    assert_eq!(record.layers, vec![4u8, 5, 3]);
    assert_eq!(record.weights.len(), 2);
    assert_eq!(record.weights[0], (5, 4, values[0..20].to_vec()));
    assert_eq!(record.weights[1], (3, 5, values[25..40].to_vec()));
    assert_eq!(record.biases, vec![values[20..25].to_vec(), values[40..43].to_vec()]);
    let back = Network::from(record).unwrap();
    let again = Network::new(&[4, 5, 3], &values).unwrap();
    assert_eq!(back.get_layers(), again.get_layers());
    for i in 0..2 {
        assert_eq!(back.get_weights()[i].nrows(), again.get_weights()[i].nrows());
        assert_eq!(back.get_weights()[i].ncols(), again.get_weights()[i].ncols());
        assert_eq!(back.get_weights()[i].as_slice(), again.get_weights()[i].as_slice());
        assert_eq!(back.get_biases()[i], again.get_biases()[i]);
    }
}

#[test]
fn stored_network_keeps_special_values() {
    let mut values = ramp(17);
    values[0] = f32::NAN.to_bits();
    values[1] = (-0.0f32).to_bits();
    values[2] = f32::INFINITY.to_bits();
    values[3] = 1.0e-42f32.to_bits();
    let nn = Network::new(&[2, 3, 2], &values).unwrap();
    let back = Network::from(SerializableNet::from(nn)).unwrap();
    assert_eq!(back.get_weights()[0].as_slice(), &values[0..6]);
}

fn record() -> SerializableNet {
    SerializableNet {
        layers: vec![2, 3, 2],
        weights: vec![(3, 2, ramp(6)), (2, 3, ramp(6))],
        biases: vec![ramp(3), ramp(2)],
    }
}

#[test]
fn sound_record_is_read() {
    let nn = Network::from(record()).unwrap();
    assert!(nn.is_well_formed());
    assert_eq!(nn.get_layers(), &[2u8, 3, 2][..]);
}

#[test]
fn record_with_too_few_layers_is_refused() {
    let mut r = record();
    r.layers = vec![2, 3];
    assert_eq!(Network::from(r).unwrap_err(), FormatError::TooFewLayers { actual: 2 });
}

#[test]
fn record_with_wrong_counts_is_refused() {
    let mut r = record();
    r.weights.pop();
    assert_eq!(Network::from(r).unwrap_err(), FormatError::WeightCount { expected: 2, actual: 1 });
    let mut r = record();
    r.biases.push(ramp(2));
    assert_eq!(Network::from(r).unwrap_err(), FormatError::BiasCount { expected: 2, actual: 3 });
}

#[test]
fn record_with_a_wrong_shape_is_refused() {
    let mut r = record();
    r.weights[1] = (3, 2, ramp(6));
    assert_eq!(
        Network::from(r).unwrap_err(),
        FormatError::WeightShape { index: 1, rows: 3, columns: 2 }
    );
}

#[test]
fn record_with_a_wrong_flattened_length_is_refused() {
    let mut r = record();
    r.weights[0] = (3, 2, ramp(5));
    assert_eq!(
        Network::from(r).unwrap_err(),
        FormatError::FlatLength { index: 0, expected: 6, actual: 5 }
    );
}

#[test]
fn record_with_a_wrong_bias_length_is_refused() {
    let mut r = record();
    r.biases[1] = ramp(3);
    assert_eq!(
        Network::from(r).unwrap_err(),
        FormatError::BiasLength { index: 1, expected: 2, actual: 3 }
    );
}

#[test]
fn the_first_defect_of_a_record_is_reported() {
    let mut r = record();
    r.biases[0] = ramp(1);
    r.weights[1] = (2, 3, ramp(1));
    assert_eq!(
        Network::from(r).unwrap_err(),
        FormatError::BiasLength { index: 0, expected: 3, actual: 1 }
    );
}

#[test]
fn parameters_of_a_topology_are_counted() {
    assert_eq!(count_parameters(&[4, 5, 3]), Some(43));
    assert_eq!(count_parameters(&[2, 3, 2]), Some(17));
    assert_eq!(count_parameters(&[200, 30, 10]), Some(30 * 200 + 30 + 10 * 30 + 10));
    assert_eq!(count_parameters(&[7]), Some(0));
    assert_eq!(count_parameters(&[]), Some(0));
    assert_eq!(count_parameters(&[255, 255]), Some(255 * 255 + 255));
    assert_eq!(count_parameters(&[0, 9, 0]), Some(9));
}

#[test]
fn samples_are_held_to_the_first_and_last_layer() {
    let nn = Network::new(&[4, 5, 3], &ramp(43)).unwrap();
    let good = Data::new(bits(&[5.1, 3.5, 1.4, 0.2]), 0, 3);
    let short = Data::new(bits(&[5.1, 3.5, 1.4]), 0, 3);
    let wide = Data::new(bits(&[5.1, 3.5, 1.4, 0.2]), 0, 4);
    assert!(nn.fits(&good));
    assert!(!nn.fits(&short));
    assert!(!nn.fits(&wide));
    assert!(nn.fits_all(&Vec::new()));
    assert!(nn.fits_all(&vec![good.duplicate(), good.duplicate()]));
    assert!(!nn.fits_all(&vec![good, short]));
}

#[test]
fn a_coefficient_can_be_set() {
    let mut m = Matrix::new_zeros(2, 3);
    m.set(1, 2, 7.5f32.to_bits());
    m.set(0, 1, (-1.0f32).to_bits());
    assert_eq!(m.as_slice(), &bits(&[0.0, 0.0, -1.0, 0.0, 0.0, 7.5])[..]);
    assert_eq!(f32::from_bits(m.get(1, 2)), 7.5);
    assert_eq!((m.nrows(), m.ncols()), (2, 3));
}
