use jepsen_rs::context::Global;
use jepsen_rs::controller::{DelayStrategy, GeneratorGroupStrategy};
use jepsen_rs::generator::{gen_n, GeneratorBuilder, GeneratorGroup, RawGenerator, RegisterRawGenerator};
use jepsen_rs::op::Op;

/// An unbounded counter source, like a half-open integer range.
struct NumGen {
    next: u64,
}

impl RawGenerator for NumGen {
    type Item = u64;

    fn gen(&mut self) -> u64 {
        let v = self.next;
        self.next += 1;
        v
    }
}

fn fresh_global() -> Global<NumGen> {
    Global::new(NumGen { next: 1 })
}

#[test]
fn test_raw_generator() {
    let mut gen = NumGen { next: 0 };
    let mut out = gen_n(&mut gen, 10);
    out.sort();
    assert_eq!(out, vec![0, 1, 2, 3, 4, 5, 6, 7, 8, 9]);
}

#[test]
fn chain_generator_will_free_the_id() {
    let mut global = fresh_global();
    let seq = global.take_seq(10);
    let gen = GeneratorBuilder::new().seq(seq).build(&mut global.id_set);
    let (g0, g1) = gen.split_at(5, &mut global.id_set);
    assert_eq!(g0.id.get(), 0);
    assert_eq!(g1.id.get(), 1);
    let g2 = g0.chain(g1, &mut global.id_set);
    assert_eq!(g2.id.get(), 0);
    // The chained generator's id survives; the other id was released.
    assert_eq!(global.id_set.len(), 1);
    assert_eq!(g2.collect(), vec![1, 2, 3, 4, 5, 6, 7, 8, 9, 10]);
}

#[test]
fn generators_and_groups_id_should_be_correct() {
    let mut global = fresh_global();
    let seq = global.take_seq(10);
    let gen = GeneratorBuilder::new().seq(seq).build(&mut global.id_set);
    assert_eq!(gen.id.get(), 0);
    let (g0, g1) = gen.split_at(5, &mut global.id_set);
    assert_eq!(g0.id.get(), 0);
    assert_eq!(g1.id.get(), 1);
    let seq2 = global.take_seq(10);
    let g2 = GeneratorBuilder::new().seq(seq2).build(&mut global.id_set);
    assert_eq!(g2.id.get(), 2);
    let gen_group = GeneratorGroup::new(vec![g0, g1]);
    assert_eq!(global.id_set.len(), 3);
    let _gen_merge = gen_group.to_generator(&mut global.id_set);
    assert_eq!(global.id_set.len(), 2);
    let seq3 = global.take_seq(10);
    let g1 = GeneratorBuilder::new().seq(seq3).build(&mut global.id_set);
    assert_eq!(g1.id.get(), 1);
    let _ = g2;
}

#[test]
fn test_generator_transform() {
    let mut global = fresh_global();
    let seq = global.take_seq(50);
    let gen = GeneratorBuilder::new().seq(seq).build(&mut global.id_set);
    let gen = gen.map(|x: u64| x + 2).filter(|x: &u64| *x % 3 == 0).take(5);
    let out = gen.collect();
    assert_eq!(out, vec![3, 6, 9, 12, 15]);
}

#[test]
fn test_generator_split_at() {
    let mut global = fresh_global();
    let seq = global.take_seq(5);
    let gen = GeneratorBuilder::new().seq(seq).build(&mut global.id_set);
    let (first, second) = gen.split_at(3, &mut global.id_set);
    assert_eq!(first.collect(), vec![1, 2, 3]);
    assert_eq!(second.collect(), vec![4, 5]);
}

#[test]
fn split_then_chain_is_identity() {
    let mut global = fresh_global();
    let seq = global.take_seq(10);
    let gen = GeneratorBuilder::new().seq(seq).build(&mut global.id_set);
    let original_id = gen.id.get();
    let ids_before = global.id_set.len();
    let (head, tail) = gen.split_at(5, &mut global.id_set);
    assert!(head.seq.len() <= 5);
    assert_eq!(head.seq.len() + tail.seq.len(), 10);
    let chained = head.chain(tail, &mut global.id_set);
    assert_eq!(chained.id.get(), original_id);
    assert_eq!(global.id_set.len(), ids_before);
    assert_eq!(chained.collect(), vec![1, 2, 3, 4, 5, 6, 7, 8, 9, 10]);
}

#[test]
fn test_generator_group_strategy() {
    // Chain: the children drain in order.
    let mut global = fresh_global();
    let gen1 = GeneratorBuilder::new().seq(global.take_seq(5)).build(&mut global.id_set);
    let gen2 = GeneratorBuilder::new().seq(global.take_seq(5)).build(&mut global.id_set);
    let gen_group =
        GeneratorGroup::new(vec![gen1, gen2]).with_strategy(GeneratorGroupStrategy::Chain);
    assert_eq!(gen_group.collect(), vec![1, 2, 3, 4, 5, 6, 7, 8, 9, 10]);

    // Round robin: the children alternate.
    let mut global = fresh_global();
    let gen1 = GeneratorBuilder::new().seq(global.take_seq(5)).build(&mut global.id_set);
    let gen2 = GeneratorBuilder::new().seq(global.take_seq(5)).build(&mut global.id_set);
    let gen_group = GeneratorGroup::new(vec![gen1, gen2]);
    assert_eq!(gen_group.collect(), vec![1, 6, 2, 7, 3, 8, 4, 9, 5, 10]);

    // Random: everything comes out, in some order.
    let mut global = fresh_global();
    let gen1 = GeneratorBuilder::new().seq(global.take_seq(5)).build(&mut global.id_set);
    let gen2 = GeneratorBuilder::new().seq(global.take_seq(5)).build(&mut global.id_set);
    let gen_group =
        GeneratorGroup::new(vec![gen1, gen2]).with_strategy(GeneratorGroupStrategy::Random);
    let mut res = gen_group.collect();
    assert_eq!(res.len(), 10);
    res.sort();
    assert_eq!(res, vec![1, 2, 3, 4, 5, 6, 7, 8, 9, 10]);
}

#[test]
fn test_generator_group_into_generator() {
    let mut global = fresh_global();
    let gen1 = GeneratorBuilder::new().seq(global.take_seq(5)).build(&mut global.id_set);
    let gen2 = GeneratorBuilder::new().seq(global.take_seq(5)).build(&mut global.id_set);
    let gen_group =
        GeneratorGroup::new(vec![gen1, gen2]).with_strategy(GeneratorGroupStrategy::Chain);
    let gen = gen_group.to_generator(&mut global.id_set);
    assert_eq!(gen.collect(), vec![1, 2, 3, 4, 5, 6, 7, 8, 9, 10]);
}

#[test]
fn group_chain_equals_chained_generators() {
    // The same children, once drained as a chain-strategy group and once
    // chained pairwise into a single generator.
    let mut global = fresh_global();
    let a = GeneratorBuilder::new().seq(global.take_seq(3)).build(&mut global.id_set);
    let b = GeneratorBuilder::new().seq(global.take_seq(3)).build(&mut global.id_set);
    let c = GeneratorBuilder::new().seq(global.take_seq(3)).build(&mut global.id_set);
    let group = GeneratorGroup::new(vec![a, b, c]).with_strategy(GeneratorGroupStrategy::Chain);
    let group_output = group.collect();

    let mut global = fresh_global();
    let a = GeneratorBuilder::new().seq(global.take_seq(3)).build(&mut global.id_set);
    let b = GeneratorBuilder::new().seq(global.take_seq(3)).build(&mut global.id_set);
    let c = GeneratorBuilder::new().seq(global.take_seq(3)).build(&mut global.id_set);
    let chained = a.chain(b, &mut global.id_set).chain(c, &mut global.id_set);
    assert_eq!(group_output, chained.collect());
}

#[test]
fn test_generator_group_get_next_with_id() {
    let mut global = fresh_global();
    let g1 = GeneratorBuilder::new().seq(global.take_seq(5)).build(&mut global.id_set);
    let g2 = GeneratorBuilder::new().seq(global.take_seq(5)).build(&mut global.id_set);
    let mut gen_group = GeneratorGroup::new(vec![g1, g2]);
    assert_eq!(gen_group.next_with_id().unwrap(), (1, 0));
    assert_eq!(gen_group.next_with_id().unwrap(), (6, 1));
    assert_eq!(gen_group.next_with_id().unwrap(), (2, 0));
    assert_eq!(gen_group.next_with_id().unwrap(), (7, 1));
}

#[test]
fn test_generator_group_with_custom_counter() {
    let mut global = fresh_global();
    let g1 = GeneratorBuilder::new().seq(global.take_seq(5)).build(&mut global.id_set);
    let g2 = GeneratorBuilder::new().seq(global.take_seq(5)).build(&mut global.id_set);
    let gen_group = GeneratorGroup::new_with_count(vec![(g1, 2), (g2, 3)]);
    // g1 yields two elements per turn and g2 three.
    assert_eq!(gen_group.collect(), vec![1, 2, 6, 7, 8, 3, 4, 9, 10, 5]);
}

#[test]
fn builder_pairs_one_delay_with_every_element() {
    let mut global = fresh_global();
    let gen = GeneratorBuilder::new()
        .seq(global.take_seq(3))
        .delay_strategy(DelayStrategy::Fixed(7))
        .build(&mut global.id_set);
    let pairs = gen.collect_all();
    assert_eq!(pairs.len(), 3);
    for (_, d) in pairs {
        assert_eq!(d, DelayStrategy::Fixed(7));
    }
}

#[test]
fn delay_sampling_respects_the_policy() {
    assert_eq!(DelayStrategy::NoDelay.sample_millis(), 0);
    assert_eq!(DelayStrategy::Fixed(42).sample_millis(), 42);
    for _ in 0..20 {
        assert!(DelayStrategy::Random(5).sample_millis() <= 10);
    }
}

#[test]
fn register_workload_yields_single_statement_txns() {
    let mut gen = RegisterRawGenerator { key_space: 3, value_space: 10 };
    for _ in 0..50 {
        match gen.gen() {
            Op::Txn(children) => {
                assert_eq!(children.len(), 1);
                match &children[0] {
                    Op::Read(k, v) => {
                        assert!(*k < 3);
                        assert!(v.is_none());
                    },
                    Op::Write(k, v) => {
                        assert!(*k < 3);
                        assert!(*v < 10);
                    },
                    Op::Txn(_) => panic!("nested transaction in the register workload"),
                }
            },
            _ => panic!("the register workload yields transactions"),
        }
    }
}
