//! The layer tree: parent chains, cycle detection and qualified layer names.

use vstd::prelude::*;
use vstd::string::StringExecFns;
use crate::document::{ancestors, chain_error, chain_ok, layers_acyclic, layers_error, LayerRecord, Malformed};

verus! {

/// The names of the ancestors in `anc` (nearest first), from the root down,
/// each followed by a dot.
pub open spec fn path_prefix(layers: Seq<LayerRecord>, anc: Seq<u32>) -> Seq<char>
    decreases anc.len(),
{
    if anc.len() == 0 {
        Seq::empty()
    } else {
        path_prefix(layers, anc.drop_first()) + layers[anc[0] as int].name@ + seq!['.']
    }
}

/// The dot-qualified name of layer `l`: the names of its ancestors from the
/// root down, then its own, separated by dots.
pub open spec fn qualified_name(layers: Seq<LayerRecord>, l: int) -> Seq<char> {
    path_prefix(layers, ancestors(layers, l, layers.len())) + layers[l].name@
}

/// A chain is fine exactly when it has no error.
pub proof fn lemma_chain_error(layers: Seq<LayerRecord>, l: int, fuel: nat)
    ensures
        chain_ok(layers, l, fuel) <==> chain_error(layers, l, fuel) is None,
    decreases fuel,
{
    match layers[l].parent {
        None => {},
        Some(p) => {
            if fuel > 0 && (p as int) < layers.len() {
                lemma_chain_error(layers, p as int, (fuel - 1) as nat);
            }
        },
    }
}

/// Walks the parent links upward from layer `l` and returns its ancestors,
/// nearest first. A link to a missing layer, or a chain longer than the number
/// of layers (which can only be a cycle), is a malformed source.
pub fn ancestor_chain(layers: &Vec<LayerRecord>, l: usize) -> (r: Result<Vec<u32>, Malformed>)
    requires
        l < layers.len(),
    ensures
        r is Ok <==> chain_ok(layers@, l as int, layers.len() as nat),
        r is Ok ==> r->Ok_0@ == ancestors(layers@, l as int, layers.len() as nat),
        r is Err ==> chain_error(layers@, l as int, layers.len() as nat) == Some(r->Err_0),
{
    let n = layers.len();
    let mut chain: Vec<u32> = Vec::new();
    let mut cur: usize = l;
    let mut steps: usize = 0;
    loop
        invariant
            cur < n,
            n == layers.len(),
            steps <= n,
            chain_ok(layers@, l as int, n as nat) == chain_ok(layers@, cur as int, (n - steps) as nat),
            chain_error(layers@, l as int, n as nat) == chain_error(layers@, cur as int, (n - steps) as nat),
            chain@ + ancestors(layers@, cur as int, (n - steps) as nat) == ancestors(layers@, l as int, n as nat),
        decreases n - steps,
    {
        match layers[cur].parent {
            None => {
                assert(chain@ + Seq::<u32>::empty() =~= chain@);
                return Ok(chain);
            },
            Some(p) => {
                if steps == n {
                    return Err(Malformed::CyclicLayers);
                }
                if p as usize >= n {
                    return Err(Malformed::ParentOutOfRange);
                }
                let ghost before = chain@;
                chain.push(p);
                assert(before + ancestors(layers@, cur as int, (n - steps) as nat) =~= chain@
                    + ancestors(layers@, p as int, (n - steps - 1) as nat));
                cur = p as usize;
                steps = steps + 1;
            },
        }
    }
}

/// The ancestor chain of every layer, in layer order; fails when any chain is
/// broken or cyclic.
pub fn layer_chains(layers: &Vec<LayerRecord>) -> (r: Result<Vec<Vec<u32>>, Malformed>)
    ensures
        r is Ok <==> layers_acyclic(layers@),
        r is Err ==> layers_error(layers@, 0) == Some(r->Err_0),
        r is Ok ==> layers_error(layers@, 0) is None,
        r is Ok ==> r->Ok_0.len() == layers.len() && forall|l: int| 0 <= l < layers.len()
            ==> (#[trigger] r->Ok_0[l])@ == ancestors(layers@, l, layers.len() as nat),
{
    let mut chains: Vec<Vec<u32>> = Vec::new();
    let mut l: usize = 0;
    while l < layers.len()
        invariant
            l <= layers.len(),
            chains.len() == l,
            forall|k: int| 0 <= k < l ==> #[trigger] chain_ok(layers@, k, layers.len() as nat),
            forall|k: int| 0 <= k < l ==> (#[trigger] chains[k])@ == ancestors(layers@, k, layers.len() as nat),
            layers_error(layers@, 0) == layers_error(layers@, l as int),
        decreases layers.len() - l,
    {
        proof {
            lemma_chain_error(layers@, l as int, layers.len() as nat);
        }
        match ancestor_chain(layers, l) {
            Ok(c) => chains.push(c),
            Err(e) => {
                assert(!chain_ok(layers@, l as int, layers.len() as nat));
                return Err(e);
            },
        }
        l = l + 1;
    }
    Ok(chains)
}

/// The dot-qualified name of layer `l`, given its ancestor chain.
pub fn layer_qualified_name(layers: &Vec<LayerRecord>, l: usize, chain: &Vec<u32>) -> (r: String)
    requires
        l < layers.len(),
        chain@ == ancestors(layers@, l as int, layers.len() as nat),
        forall|i: int| 0 <= i < chain.len() ==> (#[trigger] chain[i] as int) < layers.len(),
    ensures
        r@ == qualified_name(layers@, l as int),
{
    let mut name = String::new();
    let mut i: usize = chain.len();
    while i > 0
        invariant
            i <= chain.len(),
            forall|k: int| 0 <= k < chain.len() ==> (#[trigger] chain[k] as int) < layers.len(),
            name@ == path_prefix(layers@, chain@.subrange(i as int, chain.len() as int)),
        decreases i,
    {
        i = i - 1;
        let a = chain[i] as usize;
        assert(chain@.subrange(i as int, chain.len() as int).drop_first() =~= chain@.subrange(
            i + 1,
            chain.len() as int,
        ));
        name.append(layers[a].name.as_str());
        name.append(".");
        proof {
            reveal_strlit(".");
        }
    }
    assert(chain@.subrange(0, chain.len() as int) =~= chain@);
    name.append(layers[l].name.as_str());
    name
}

/// Every ancestor that a chain names is a layer of the document.
pub proof fn lemma_ancestors_in_range(layers: Seq<LayerRecord>, l: int, fuel: nat)
    ensures
        forall|i: int| 0 <= i < ancestors(layers, l, fuel).len()
            ==> (#[trigger] ancestors(layers, l, fuel)[i] as int) < layers.len(),
    decreases fuel,
{
    match layers[l].parent {
        None => {},
        Some(p) => {
            if fuel > 0 && (p as int) < layers.len() {
                lemma_ancestors_in_range(layers, p as int, (fuel - 1) as nat);
                let rest = ancestors(layers, p as int, (fuel - 1) as nat);
                assert forall|i: int| 0 <= i < ancestors(layers, l, fuel).len() implies
                    (#[trigger] ancestors(layers, l, fuel)[i] as int) < layers.len() by {
                    if i > 0 {
                        assert(ancestors(layers, l, fuel)[i] == rest[i - 1]);
                    }
                }
            }
        },
    }
}

/// The dot-qualified names of all layers, in layer order.
pub fn qualified_names(layers: &Vec<LayerRecord>, chains: &Vec<Vec<u32>>) -> (r: Vec<String>)
    requires
        chains.len() == layers.len(),
        forall|l: int| 0 <= l < layers.len() ==> (#[trigger] chains[l])@ == ancestors(layers@, l, layers.len() as nat),
    ensures
        r.len() == layers.len(),
        forall|l: int| 0 <= l < layers.len() ==> (#[trigger] r[l])@ == qualified_name(layers@, l),
{
    let mut names: Vec<String> = Vec::new();
    let mut l: usize = 0;
    while l < layers.len()
        invariant
            l <= layers.len(),
            chains.len() == layers.len(),
            forall|k: int| 0 <= k < layers.len() ==> (#[trigger] chains[k])@ == ancestors(layers@, k, layers.len() as nat),
            names.len() == l,
            forall|k: int| 0 <= k < l ==> (#[trigger] names[k])@ == qualified_name(layers@, k),
        decreases layers.len() - l,
    {
        proof {
            lemma_ancestors_in_range(layers@, l as int, layers.len() as nat);
        }
        let name = layer_qualified_name(layers, l, &chains[l]);
        names.push(name);
        l = l + 1;
    }
    names
}

} // verus!
