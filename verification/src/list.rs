use vstd::prelude::*;

verus! {

/// A list that is a plain value: two lists are the same if and only if their items are.
#[derive(Debug, PartialEq)]
pub enum List<T> {
    /// The list without items.
    Empty,
    /// A first item, and the items behind it.
    Item(Box<T>, Box<List<T>>),
}

impl<T> List<T> {
    /// The items of the list.
    pub open spec fn items(self) -> Seq<T>
        decreases self,
    {
        match self {
            List::Empty => Seq::empty(),
            List::Item(first, rest) => seq![*first] + rest.items(),
        }
    }
}

/// The list of some items.
pub open spec fn list_of<T>(items: Seq<T>) -> List<T>
    decreases items.len(),
{
    if items.len() == 0 {
        List::Empty
    } else {
        List::Item(Box::new(items[0]), Box::new(list_of(items.drop_first())))
    }
}

/// The list of some items has those items.
pub proof fn lemma_list_items<T>(items: Seq<T>)
    ensures
        list_of(items).items() == items,
    decreases items.len(),
{
    if items.len() > 0 {
        lemma_list_items(items.drop_first());
        assert(seq![items[0]] + items.drop_first() =~= items);
    } else {
        assert(items =~= Seq::empty());
    }
}

/// A list is the list of its items.
pub proof fn lemma_list_of_items<T>(list: List<T>)
    ensures
        list_of(list.items()) == list,
    decreases list,
{
    if let List::Item(first, rest) = list {
        lemma_list_of_items(*rest);
        assert(list.items().drop_first() =~= rest.items());
        assert(list.items()[0] == *first);
    }
}

impl<T> List<T> {
    /// Creates the list of some items.
    pub fn from_vec(items: Vec<T>) -> (list: Self)
        ensures
            list == list_of(items@),
            list.items() == items@,
    {
        let ghost all = items@;
        let mut rest = items;
        let mut list = List::Empty;
        assert(list_of(all.skip(all.len() as int)) == List::<T>::Empty);
        while rest.len() > 0
            invariant
                rest@.len() <= all.len(),
                rest@ == all.take(rest@.len() as int),
                list == list_of(all.skip(rest@.len() as int)),
            decreases rest@.len(),
        {
            let ghost n = rest@.len();
            match rest.pop() {
                Some(item) => {
                    assert(item == all[n - 1]);
                    assert(all.skip(n - 1).drop_first() =~= all.skip(n as int));
                    assert(rest@ =~= all.take(n - 1));
                    list = List::Item(Box::new(item), Box::new(list));
                },
                None => {},
            }
        }
        assert(all.skip(0) =~= all);
        proof {
            lemma_list_items(all);
        }
        list
    }

    /// Collects the items of the list.
    pub fn as_vec(&self) -> (items: Vec<&T>)
        ensures
            items@.len() == self.items().len(),
            forall|i: int| 0 <= i < items@.len() ==> *(#[trigger] items@[i]) == self.items()[i],
    {
        let ghost all = self.items();
        let mut items: Vec<&T> = Vec::new();
        let mut rest = self;
        assert(all.skip(0) =~= all);
        loop
            invariant
                all == self.items(),
                items@.len() <= all.len(),
                rest.items() == all.skip(items@.len() as int),
                forall|i: int| 0 <= i < items@.len() ==> *(#[trigger] items@[i]) == all[i],
            decreases rest,
        {
            match rest {
                List::Empty => {
                    return items;
                },
                List::Item(first, behind) => {
                    assert(rest.items()[0] == **first);
                    assert(behind.items() =~= rest.items().skip(1));
                    assert(all.skip(items@.len() as int).skip(1) =~= all.skip(
                        items@.len() as int + 1,
                    ));
                    items.push(&**first);
                    rest = &**behind;
                },
            }
        }
    }
}

} // verus!
