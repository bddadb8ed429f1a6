use evolution_sim::network::{Layer, LayerTopology, Network, Neuron};
use evolution_sim::simulation::Brain;
use evolution_sim::chromosome::Chromosome;

fn relu(n: &Neuron<f32>, inputs: &Vec<f32>) -> f32 {
    let mut sum = 0.0f32;
    for (x, w) in inputs.iter().zip(n.weights().iter()) {
        sum += x * w;
    }
    (n.bias() + sum).max(0.0)
}

#[test]
fn test() {
    let network = Network::new(vec![
        Layer::new(vec![Neuron::new(0.1, vec![0.2, 0.3, 0.4])]),
        Layer::new(vec![Neuron::new(0.5, vec![0.6, 0.7, 0.8])]),
    ]);

    let actual = network.weights();
    let expected = vec![0.1, 0.2, 0.3, 0.4, 0.5, 0.6, 0.7, 0.8];

    assert_eq!(actual.as_slice(), expected.as_slice());
}

#[test]
fn lib_test() {
    let layers = &[LayerTopology { neurons: 3 }, LayerTopology { neurons: 2 }];

    let weights = vec![0.1, 0.2, 0.3, 0.4, 0.5, 0.6, 0.7, 0.8];

    let network = Network::from_weights(layers, weights.clone());
    let actual: Vec<_> = network.weights();

    assert_eq!(actual.as_slice(), weights.as_slice());
}

#[test]
fn from_weights_lays_out_bias_then_weights() {
    let layers = &[LayerTopology { neurons: 2 }, LayerTopology { neurons: 2 }, LayerTopology { neurons: 1 }];
    let weights: Vec<i32> = (1..=9).collect();
    let network = Network::from_weights(layers, weights.clone());
    let ls = network.layers();
    assert_eq!(ls.len(), 2);
    assert_eq!(ls[0].neurons().len(), 2);
    assert_eq!(ls[0].neurons()[0].bias(), 1);
    assert_eq!(ls[0].neurons()[0].weights(), &vec![2, 3]);
    assert_eq!(ls[0].neurons()[1].bias(), 4);
    assert_eq!(ls[0].neurons()[1].weights(), &vec![5, 6]);
    assert_eq!(ls[1].neurons()[0].bias(), 7);
    assert_eq!(ls[1].neurons()[0].weights(), &vec![8, 9]);
    assert_eq!(network.weights(), weights);
}

#[test]
fn weights_round_trip_of_a_level_without_neurons() {
    let layers = &[LayerTopology { neurons: 4 }, LayerTopology { neurons: 0 }];
    let network: Network<i32> = Network::from_weights(layers, vec![]);
    assert_eq!(network.weights(), Vec::<i32>::new());
    assert_eq!(network.layers()[0].neurons().len(), 0);
}

#[test]
fn propagate_single_neuron() {
    let layers = &[LayerTopology { neurons: 3 }, LayerTopology { neurons: 1 }];
    let network = Network::from_weights(layers, vec![0.5, 0.6, 0.7, 0.8]);
    let out = network.propagate(vec![0.1, 0.2, 0.3], &relu);
    assert_eq!(out.len(), 1);
    assert!((out[0] - 0.94).abs() < 1e-6);
}

#[test]
fn propagate_clamps_negative_to_zero() {
    let layers = &[LayerTopology { neurons: 2 }, LayerTopology { neurons: 2 }, LayerTopology { neurons: 1 }];
    let network = Network::from_weights(
        layers,
        vec![-1.0, 1.0, 1.0, 0.0, 1.0, -1.0, 0.0, 2.0, 3.0],
    );
    // hidden: max(0, -1 + 0.5 + 0.25) = 0, max(0, 0 + 0.5 - 0.25) = 0.25
    // output: max(0, 0 + 2 * 0 + 3 * 0.25) = 0.75
    let out = network.propagate(vec![0.5, 0.25], &relu);
    assert_eq!(out, vec![0.75]);
}

#[test]
fn layer_propagate_gives_one_output_per_neuron() {
    let layer = Layer::new(vec![Neuron::new(1, vec![1, 2]), Neuron::new(-5, vec![0, 1]), Neuron::new(0, vec![3, 3])]);
    let out = layer.propagate(&vec![2, 3], &|n: &Neuron<i64>, xs: &Vec<i64>| {
        n.bias() + xs.iter().zip(n.weights().iter()).map(|(x, w)| x * w).sum::<i64>()
    });
    assert_eq!(out, vec![9, -2, 15]);
}

#[test]
fn brain_topology_and_weight_count() {
    let t = Brain::<f32>::topology(9);
    let sizes: Vec<usize> = t.iter().map(|l| l.neurons).collect();
    assert_eq!(sizes, vec![9, 18, 2]);
    assert_eq!(Brain::<f32>::weight_count(9), 218);
    assert_eq!(Brain::<f32>::weight_count(0), 2);
}

#[test]
fn brain_chromosome_round_trip() {
    let genes: Vec<i32> = (0..218).collect();
    let brain = Brain::from_chromosome(Chromosome::from_genes(genes.clone()), 9);
    assert_eq!(brain.network().layers().len(), 2);
    assert_eq!(brain.network().layers()[1].neurons().len(), 2);
    assert_eq!(brain.as_chromosome().into_genes(), genes);
}

#[test]
fn rebuilding_from_own_weights_gives_the_network_back() {
    let layers = &[LayerTopology { neurons: 2 }, LayerTopology { neurons: 3 }, LayerTopology { neurons: 1 }];
    let net = Network::from_weights(layers, (10..23).collect::<Vec<i32>>());
    let again = Network::from_weights(layers, net.weights());
    for (la, lb) in net.layers().iter().zip(again.layers().iter()) {
        assert_eq!(la.neurons().len(), lb.neurons().len());
        for (na, nb) in la.neurons().iter().zip(lb.neurons().iter()) {
            assert_eq!(na.bias(), nb.bias());
            assert_eq!(na.weights(), nb.weights());
        }
    }
}
