//! What the attributes on services and states generate: the plans that decide
//! names, order and arguments, without the tokens.
use vstd::prelude::*;
use vstd::utf8::encode_utf8;

use crate::names::{pascal_case, snake_to_pascal_case};
use crate::text::occurs;
use crate::topic::same_bytes;

verus! {

/// An argument of a method of a service.
#[derive(Clone, Copy, Debug, PartialEq, Eq, Structural)]
pub enum MethodArg {
    /// `self`, in any form.
    Receiver,
    /// An argument with a name and a type.
    Named,
    /// An argument with another pattern than a name, and a type.
    Pattern,
}

/// An item of the trait that describes a service.
pub enum ServiceItem {
    Method { name: String, args: Vec<MethodArg> },
    Other,
}

/// What is generated for one method: a variant of the call enum, an arm of the
/// handler and a method of the client.
pub struct MethodPlan {
    /// The index of the method among the items of the trait.
    pub item: usize,
    /// The name of the method.
    pub method: String,
    /// The name of the variant.
    pub variant: String,
    /// The arguments that are fields of the variant.
    pub fields: Vec<usize>,
    /// The arguments that the handler's arm and the client's method bind.
    pub params: Vec<usize>,
}

/// What is generated for a service.
pub struct ServicePlan {
    /// Whether a handler is generated.
    pub server_handler: bool,
    /// The name of the client.
    pub client_name: String,
    /// The methods, in the order of the trait.
    pub methods: Vec<MethodPlan>,
}

/// The indices among the first `n` arguments of those with a name.
pub open spec fn named_args(args: Seq<MethodArg>, n: nat) -> Seq<usize>
    decreases n,
{
    if n == 0 {
        Seq::empty()
    } else if args[n - 1] == MethodArg::Named {
        named_args(args, (n - 1) as nat).push((n - 1) as usize)
    } else {
        named_args(args, (n - 1) as nat)
    }
}

/// The indices among the first `n` arguments of those that are not `self`.
pub open spec fn typed_args(args: Seq<MethodArg>, n: nat) -> Seq<usize>
    decreases n,
{
    if n == 0 {
        Seq::empty()
    } else if args[n - 1] != MethodArg::Receiver {
        typed_args(args, (n - 1) as nat).push((n - 1) as usize)
    } else {
        typed_args(args, (n - 1) as nat)
    }
}

/// The indices of the methods among the first `n` items.
pub open spec fn method_items(items: Seq<ServiceItem>, n: nat) -> Seq<int>
    decreases n,
{
    if n == 0 {
        Seq::empty()
    } else if items[n - 1] is Method {
        method_items(items, (n - 1) as nat).push(n - 1)
    } else {
        method_items(items, (n - 1) as nat)
    }
}

/// Whether `plan` is what is generated for the method at `index`.
pub open spec fn plans_method(plan: MethodPlan, items: Seq<ServiceItem>, index: int) -> bool {
    &&& plan.item == index
    &&& items[index] matches ServiceItem::Method { name, args } && {
        &&& plan.method@ == name@
        &&& plan.variant@ == pascal_case(name@)
        &&& plan.fields@ == named_args(args@, args@.len())
        &&& plan.params@ == typed_args(args@, args@.len())
    }
}

/// Whether `plans` is what is generated for the first `n` items.
pub open spec fn plans_items(plans: Seq<MethodPlan>, items: Seq<ServiceItem>, n: nat) -> bool {
    &&& plans.len() == method_items(items, n).len()
    &&& forall|k: int|
        0 <= k < plans.len() ==> plans_method(#[trigger] plans[k], items, method_items(items, n)[k])
}

/// Whether `needle` occurs in `text`.
fn contains(text: &[u8], needle: &[u8]) -> (r: bool)
    ensures
        r == occurs(needle@, text@),
{
    if needle.len() > text.len() {
        return false;
    }
    let n: usize = text.len();
    let last: usize = n - needle.len();
    let mut i: usize = 0;
    while i <= last
        invariant
            n == text@.len(),
            last == n - needle@.len(),
            i <= last + 1,
            forall|j: int|
                0 <= j < i ==> #[trigger] text@.subrange(j, j + needle@.len()) != needle@,
        decreases last + 1 - i,
    {
        if same_bytes(vstd::slice::slice_subrange(text, i, i + needle.len()), needle) {
            return true;
        }
        if i == last {
            return false;
        }
        i += 1;
    }
    false
}

/// The indices of the arguments that are fields of the variant.
fn fields_of(args: &Vec<MethodArg>) -> (r: Vec<usize>)
    ensures
        r@ == named_args(args@, args@.len()),
{
    let mut r: Vec<usize> = Vec::new();
    let mut i: usize = 0;
    while i < args.len()
        invariant
            i <= args@.len(),
            r@ == named_args(args@, i as nat),
        decreases args@.len() - i,
    {
        if args[i] == MethodArg::Named {
            r.push(i);
        }
        i += 1;
    }
    r
}

/// The indices of the arguments that are bound.
fn params_of(args: &Vec<MethodArg>) -> (r: Vec<usize>)
    ensures
        r@ == typed_args(args@, args@.len()),
{
    let mut r: Vec<usize> = Vec::new();
    let mut i: usize = 0;
    while i < args.len()
        invariant
            i <= args@.len(),
            r@ == typed_args(args@, i as nat),
        decreases args@.len() - i,
    {
        if args[i] != MethodArg::Receiver {
            r.push(i);
        }
        i += 1;
    }
    r
}

/// Plans what is generated for a service: for every method of the trait a
/// variant, an arm and a client method, and a client named after the trait.
/// The options leave out the handler when they hold `no_server_handler`.
pub fn rpc(options: &str, trait_name: &str, items: &Vec<ServiceItem>) -> (r: ServicePlan)
    ensures
        r.server_handler <==> !occurs(encode_utf8("no_server_handler"@), encode_utf8(options@)),
        r.client_name@ == trait_name@ + "Client"@,
        plans_items(r.methods@, items@, items@.len()),
{
    let mut client_name = trait_name.to_owned();
    client_name.append("Client");
    let mut methods: Vec<MethodPlan> = Vec::new();
    let mut i: usize = 0;
    while i < items.len()
        invariant
            i <= items@.len(),
            plans_items(methods@, items@, i as nat),
        decreases items@.len() - i,
    {
        match &items[i] {
            ServiceItem::Method { name, args } => {
                methods.push(
                    MethodPlan {
                        item: i,
                        method: name.clone(),
                        variant: snake_to_pascal_case(name.as_str()),
                        fields: fields_of(args),
                        params: params_of(args),
                    },
                );
            },
            ServiceItem::Other => {},
        }
        i += 1;
    }
    ServicePlan {
        server_handler: !contains(options.as_bytes(), "no_server_handler".as_bytes()),
        client_name,
        methods,
    }
}

/// Plans what is generated for a connection state: each field with its index.
/// Every field must have a name.
pub fn connection_state(fields: &Vec<Option<String>>) -> (r: Vec<(usize, String)>)
    requires
        forall|i: int| 0 <= i < fields@.len() ==> (#[trigger] fields@[i]) is Some,
    ensures
        r@.len() == fields@.len(),
        forall|i: int|
            0 <= i < r@.len() ==> (#[trigger] r@[i]).0 == i && r@[i].1@ == fields@[i]->0@,
{
    let mut r: Vec<(usize, String)> = Vec::new();
    let mut i: usize = 0;
    while i < fields.len()
        invariant
            i <= fields@.len(),
            forall|k: int| 0 <= k < fields@.len() ==> (#[trigger] fields@[k]) is Some,
            r@.len() == i,
            forall|k: int|
                0 <= k < i ==> (#[trigger] r@[k]).0 == k && r@[k].1@ == fields@[k]->0@,
        decreases fields@.len() - i,
    {
        match &fields[i] {
            Some(name) => {
                r.push((i, name.clone()));
            },
            None => {
                assert(fields@[i as int] is Some);
            },
        }
        i += 1;
    }
    r
}

/// When all arguments of a method but `self` have names, what the handler's arm
/// and the client's method bind are exactly the fields of the variant.
pub proof fn named_arguments_all_travel(args: Seq<MethodArg>, n: nat)
    requires
        n <= args.len(),
        forall|i: int| 0 <= i < args.len() ==> (#[trigger] args[i]) != MethodArg::Pattern,
    ensures
        named_args(args, n) == typed_args(args, n),
    decreases n,
{
    if n > 0 {
        named_arguments_all_travel(args, (n - 1) as nat);
        assert(args[n - 1] != MethodArg::Pattern);
    }
}

/// Every method of a trait, and nothing else, has its place in the plan, in the
/// order of the trait.
pub proof fn methods_are_planned_in_order(items: Seq<ServiceItem>, n: nat)
    requires
        n <= items.len(),
    ensures
        forall|k: int|
            0 <= k < method_items(items, n).len() ==> 0 <= (#[trigger] method_items(items, n)[k])
                < n && items[method_items(items, n)[k]] is Method,
        forall|k: int, l: int|
            0 <= k < l < method_items(items, n).len() ==> (#[trigger] method_items(items, n)[k]) < (
            #[trigger] method_items(items, n)[l]),
        forall|i: int|
            0 <= i < n && (#[trigger] items[i]) is Method ==> method_items(items, n).contains(i),
    decreases n,
{
    if n > 0 {
        methods_are_planned_in_order(items, (n - 1) as nat);
        let front = method_items(items, (n - 1) as nat);
        let list = method_items(items, n);
        assert forall|i: int| 0 <= i < n && (#[trigger] items[i]) is Method implies list.contains(
            i,
        ) by {
            if i < n - 1 {
                assert(front.contains(i));
                let k = choose|k: int| 0 <= k < front.len() && front[k] == i;
                assert(list[k] == i);
            } else {
                assert(list[list.len() - 1] == i);
            }
        }
    }
}

/// The arguments that are fields are exactly those with a name: each of them
/// once, none else, in the order of the method.
pub proof fn fields_are_the_named_arguments(args: Seq<MethodArg>, n: nat)
    requires
        n <= args.len(),
        n <= usize::MAX,
    ensures
        forall|k: int|
            0 <= k < named_args(args, n).len() ==> (#[trigger] named_args(args, n)[k]) < n
                && args[named_args(args, n)[k] as int] is Named,
        forall|k: int, l: int|
            0 <= k < l < named_args(args, n).len() ==> (#[trigger] named_args(args, n)[k]) < (
            #[trigger] named_args(args, n)[l]),
        forall|i: int|
            0 <= i < n && (#[trigger] args[i]) is Named ==> named_args(args, n).contains(
                i as usize,
            ),
    decreases n,
{
    if n > 0 {
        fields_are_the_named_arguments(args, (n - 1) as nat);
        let front = named_args(args, (n - 1) as nat);
        let list = named_args(args, n);
        assert forall|i: int| 0 <= i < n && (#[trigger] args[i]) is Named implies list.contains(
            i as usize,
        ) by {
            if i < n - 1 {
                let k = choose|k: int| 0 <= k < front.len() && front[k] == i as usize;
                assert(list[k] == i as usize);
            } else {
                assert(list[list.len() - 1] == i as usize);
            }
        }
    }
}

/// The arguments that are bound are exactly those that are not `self`: each of
/// them once, in the order of the method.
pub proof fn params_are_the_other_arguments(args: Seq<MethodArg>, n: nat)
    requires
        n <= args.len(),
        n <= usize::MAX,
    ensures
        forall|k: int|
            0 <= k < typed_args(args, n).len() ==> (#[trigger] typed_args(args, n)[k]) < n && !(
            args[typed_args(args, n)[k] as int] is Receiver),
        forall|k: int, l: int|
            0 <= k < l < typed_args(args, n).len() ==> (#[trigger] typed_args(args, n)[k]) < (
            #[trigger] typed_args(args, n)[l]),
        forall|i: int|
            0 <= i < n && !((#[trigger] args[i]) is Receiver) ==> typed_args(args, n).contains(
                i as usize,
            ),
    decreases n,
{
    if n > 0 {
        params_are_the_other_arguments(args, (n - 1) as nat);
        let front = typed_args(args, (n - 1) as nat);
        let list = typed_args(args, n);
        assert forall|i: int| 0 <= i < n && !((#[trigger] args[i]) is Receiver) implies list.contains(
            i as usize,
        ) by {
            if i < n - 1 {
                let k = choose|k: int| 0 <= k < front.len() && front[k] == i as usize;
                assert(list[k] == i as usize);
            } else {
                assert(list[list.len() - 1] == i as usize);
            }
        }
    }
}

/// A plan for a trait has, for every method and for nothing else, one entry, in
/// the order of the trait. The entry bears the name of the method and the
/// variant named after it; its fields are exactly the arguments with a name, and
/// what it binds are exactly the arguments that are not `self`.
pub proof fn every_method_is_planned(plans: Seq<MethodPlan>, items: Seq<ServiceItem>)
    requires
        plans_items(plans, items, items.len()),
        forall|i: int|
            0 <= i < items.len() ==> ((#[trigger] items[i]) matches ServiceItem::Method {
                name,
                args,
            } ==> args@.len() <= usize::MAX),
    ensures
        forall|i: int|
            0 <= i < items.len() && (#[trigger] items[i]) is Method ==> exists|k: int|
                0 <= k < plans.len() && (#[trigger] plans[k]).item == i,
        forall|k: int, l: int|
            0 <= k < l < plans.len() ==> (#[trigger] plans[k]).item < (#[trigger] plans[l]).item,
        forall|k: int|
            0 <= k < plans.len() ==> (#[trigger] plans[k]).item < items.len()
                && items[plans[k].item as int] is Method && {
                let item = items[plans[k].item as int];
                &&& plans[k].method@ == item->name@
                &&& plans[k].variant@ == pascal_case(item->name@)
                &&& forall|a: int|
                    0 <= a < item->args@.len() ==> ((#[trigger] item->args@[a]) is Named
                        <==> plans[k].fields@.contains(a as usize))
                &&& forall|a: int|
                    0 <= a < item->args@.len() ==> (!((#[trigger] item->args@[a]) is Receiver)
                        <==> plans[k].params@.contains(a as usize))
                &&& forall|x: int|
                    0 <= x < plans[k].fields@.len() ==> (#[trigger] plans[k].fields@[x]) < item->args@.len()
                &&& forall|x: int|
                    0 <= x < plans[k].params@.len() ==> (#[trigger] plans[k].params@[x]) < item->args@.len()
                &&& forall|x: int, y: int|
                    0 <= x < y < plans[k].fields@.len() ==> (#[trigger] plans[k].fields@[x]) < (
                    #[trigger] plans[k].fields@[y]) < item->args@.len()
                &&& forall|x: int, y: int|
                    0 <= x < y < plans[k].params@.len() ==> (#[trigger] plans[k].params@[x]) < (
                    #[trigger] plans[k].params@[y]) < item->args@.len()
            },
{
    let n = items.len();
    let order = method_items(items, n);
    methods_are_planned_in_order(items, n);
    assert forall|i: int| 0 <= i < n && (#[trigger] items[i]) is Method implies exists|k: int|
        0 <= k < plans.len() && (#[trigger] plans[k]).item == i by {
        assert(order.contains(i));
        let k = choose|k: int| 0 <= k < order.len() && order[k] == i;
        assert(plans_method(plans[k], items, order[k]));
    }
    assert forall|k: int, l: int| 0 <= k < l < plans.len() implies (#[trigger] plans[k]).item < (
    #[trigger] plans[l]).item by {
        assert(plans_method(plans[k], items, order[k]));
        assert(plans_method(plans[l], items, order[l]));
        assert(order[k] < order[l]);
    }
    assert forall|k: int| 0 <= k < plans.len() implies (#[trigger] plans[k]).item < items.len()
        && items[plans[k].item as int] is Method && {
        let item = items[plans[k].item as int];
        &&& plans[k].method@ == item->name@
        &&& plans[k].variant@ == pascal_case(item->name@)
        &&& forall|a: int|
            0 <= a < item->args@.len() ==> ((#[trigger] item->args@[a]) is Named
                <==> plans[k].fields@.contains(a as usize))
        &&& forall|a: int|
            0 <= a < item->args@.len() ==> (!((#[trigger] item->args@[a]) is Receiver)
                <==> plans[k].params@.contains(a as usize))
        &&& forall|x: int|
            0 <= x < plans[k].fields@.len() ==> (#[trigger] plans[k].fields@[x]) < item->args@.len()
        &&& forall|x: int|
            0 <= x < plans[k].params@.len() ==> (#[trigger] plans[k].params@[x]) < item->args@.len()
        &&& forall|x: int, y: int|
            0 <= x < y < plans[k].fields@.len() ==> (#[trigger] plans[k].fields@[x]) < (
            #[trigger] plans[k].fields@[y]) < item->args@.len()
        &&& forall|x: int, y: int|
            0 <= x < y < plans[k].params@.len() ==> (#[trigger] plans[k].params@[x]) < (
            #[trigger] plans[k].params@[y]) < item->args@.len()
    } by {
        assert(plans_method(plans[k], items, order[k]));
        assert(0 <= order[k] < n && items[order[k]] is Method);
        let item = items[plans[k].item as int];
        let args = item->args@;
        fields_are_the_named_arguments(args, args.len());
        params_are_the_other_arguments(args, args.len());
        assert forall|a: int| 0 <= a < args.len() implies ((#[trigger] args[a]) is Named
            <==> plans[k].fields@.contains(a as usize)) by {
            if plans[k].fields@.contains(a as usize) {
                let x = choose|x: int|
                    0 <= x < plans[k].fields@.len() && plans[k].fields@[x] == a as usize;
                assert(args[named_args(args, args.len())[x] as int] is Named);
            }
        }
        assert forall|a: int| 0 <= a < args.len() implies (!((#[trigger] args[a]) is Receiver)
            <==> plans[k].params@.contains(a as usize)) by {
            if plans[k].params@.contains(a as usize) {
                let x = choose|x: int|
                    0 <= x < plans[k].params@.len() && plans[k].params@[x] == a as usize;
                assert(!(args[typed_args(args, args.len())[x] as int] is Receiver));
            }
        }
    }
}

} // verus!
