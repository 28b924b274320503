use spark_mem::handlemap::{make_handle, Handle, HandleMap};
use spark_mem::ringbuffer::RingBuffer;
use spark_mem::vector::Vector;

struct Item {
    pub data: usize,
}

impl Default for Item {
    fn default() -> Item {
        Item { data: 42 }
    }
}

impl Drop for Item {
    fn drop(&mut self) {
        println!("Item dropped");
    }
}

#[derive(Copy, Clone, Default)]
struct Task {
    pub data: usize,
    pub id: usize,
}

#[derive(Default, Clone)]
struct AllocationData {
    pub data_block_1: [usize; 10],
    pub data_block_2: [usize; 10],
    pub data_block_3: [usize; 10],
    pub data_block_4: [usize; 10],
}

#[test]
fn handlemap_construction() {
    let handle_map: HandleMap<Item> = HandleMap::new(100);
    assert_eq!(handle_map.max_size(), 100, "HandleMap max size was not 100");
    assert_eq!(handle_map.size(), 0, "HandleMap's initial size was not 0");
}

#[test]
fn insert() {
    let mut handle_map: HandleMap<Item> = HandleMap::new(100);
    let item_handle = handle_map.insert(Item { data: 42 }).unwrap();
    assert_eq!(handle_map.size(), 1, "Size was not updated after inserting a new item");
    let item_ref = handle_map.at(item_handle);
    assert_eq!(item_ref.data, 42, "Returned reference did not point to proper item");
}

#[test]
fn insert_multiple() {
    let mut handle_map: HandleMap<Item> = HandleMap::new(100);
    let item_handle_0 = handle_map.insert(Item { data: 42 }).unwrap();
    assert_eq!(handle_map.size(), 1, "Size was not updated after inserting a new item");
    let item_handle_1 = handle_map.insert(Item { data: 43 }).unwrap();
    assert_eq!(handle_map.size(), 2, "Size was not updated after inserting a new item");
    let item_handle_2 = handle_map.insert(Item { data: 44 }).unwrap();
    assert_eq!(handle_map.size(), 3, "Size was not updated after inserting a new item");
    assert_eq!(handle_map.at(item_handle_0).data, 42, "Returned reference did not point to proper item");
    assert_eq!(handle_map.at(item_handle_1).data, 43, "Returned reference did not point to proper item");
    assert_eq!(handle_map.at(item_handle_2).data, 44, "Returned reference did not point to proper item");
}

#[test]
fn at_mut() {
    let mut handle_map: HandleMap<Item> = HandleMap::new(100);
    let item_handle = handle_map.insert(Item { data: 42 }).unwrap();
    assert_eq!(handle_map.size(), 1, "Size was not updated after inserting a new item");
    let item_ref = handle_map.at_mut(item_handle);
    assert_eq!(item_ref.data, 42, "Returned mutable reference did not point to proper item");
    item_ref.data = 66;
    assert_eq!(item_ref.data, 66, "Mutating the returned reference did not alter the value");
}

#[test]
fn index() {
    let mut handle_map: HandleMap<Item> = HandleMap::new(100);
    let item_handle = handle_map.insert(Item { data: 42 }).unwrap();
    assert_eq!(handle_map.size(), 1, "Size was not updated after inserting a new item");
    let item_ref = handle_map.at(item_handle);
    assert_eq!(item_ref.data, 42, "Returned mutable reference did not point to proper item");
}

#[test]
fn mut_index() {
    let mut handle_map: HandleMap<Item> = HandleMap::new(100);
    let item_handle = handle_map.insert(Item { data: 42 }).unwrap();
    assert_eq!(handle_map.size(), 1, "Size was not updated after inserting a new item");
    let item_ref = handle_map.at_mut(item_handle);
    assert_eq!(item_ref.data, 42, "Returned mutable reference did not point to proper item");
    item_ref.data = 66;
    assert_eq!(handle_map.at(item_handle).data, 66, "Returned mutable reference was not changed when assigning new value");
}

#[test]
fn remove() {
    let mut handle_map: HandleMap<Item> = HandleMap::new(100);
    let item_handle = handle_map.insert(Item { data: 42 }).unwrap();
    assert_eq!(handle_map.size(), 1, "Size was not updated after inserting a new item");
    handle_map.remove(item_handle);
    assert!(!handle_map.is_valid(item_handle), "Handle was still valid after remove()");
}

#[test]
fn clear() {
    let mut handle_storage: Vec<Handle> = Vec::with_capacity(100);
    let mut handle_map: HandleMap<Item> = HandleMap::new(100);
    for _ in 0..100 {
        let item_handle = handle_map.insert(Item { data: 42 }).unwrap();
        handle_storage.push(item_handle);
    }
    handle_map.clear();
    for idx in 0..100 {
        assert!(!handle_map.is_valid(handle_storage[idx]), "Handle was still valid after clear()");
    }
}

#[test]
fn iterate_indexed() {
    let mut handle_map: HandleMap<Item> = HandleMap::new(100);
    for idx in 0..100 {
        let _ = handle_map.insert(Item { data: idx }).unwrap();
    }
    for idx in 0..100usize {
        assert_eq!(handle_map.as_slice()[idx].data, idx, "HandleMap [index] did not return a proper element of the dense array");
        assert_eq!(handle_map.at(idx as Handle).data, idx);
        if idx < 99 {
            // Element addresses cannot be compared here: these tests may not
            // hold raw pointers. The dense values come as one slice, and a
            // slice of two neighbours spans exactly two elements.
            let dense = handle_map.as_slice();
            assert_eq!(std::mem::size_of_val(&dense[idx..idx + 2]), 2 * std::mem::size_of::<Item>(), "Items were not contigous in memory");
        }
    }
}

#[test]
fn handlemap_remove_in_middle() {
    let mut handle_map: HandleMap<Item> = HandleMap::new(10);
    let h1 = handle_map.insert(Item { data: 1 }).unwrap();
    let h2 = handle_map.insert(Item { data: 2 }).unwrap();
    let h3 = handle_map.insert(Item { data: 3 }).unwrap();
    assert_eq!(handle_map.remove(h2).unwrap().data, 2);
    assert!(!handle_map.is_valid(h2));
    assert_eq!(handle_map.at(h1).data, 1);
    assert_eq!(handle_map.at(h3).data, 3);
    assert_eq!(handle_map.size(), 2);
    let mut dense: Vec<usize> = handle_map.as_slice().iter().map(|i| i.data).collect();
    dense.sort();
    assert_eq!(dense, vec![1, 3]);
    assert!(handle_map.remove(h2).is_none());
}

#[derive(Clone)]
struct Cell {
    pub value: u32,
}

#[test]
fn handlemap_insert_copy() {
    let mut handle_map: HandleMap<Cell> = HandleMap::new(4);
    let template = Cell { value: 9 };
    let h = handle_map.insert_copy(&template).unwrap();
    assert_eq!(handle_map.at(h).value, 9);
    assert_eq!(template.value, 9);
}

#[test]
fn handlemap_full_and_stale() {
    let mut handle_map: HandleMap<Item> = HandleMap::new(2);
    let a = handle_map.insert(Item { data: 1 }).unwrap();
    let _b = handle_map.insert(Item { data: 2 }).unwrap();
    assert!(handle_map.insert(Item { data: 3 }).is_none());
    assert!(handle_map.remove(a).is_some());
    let c = handle_map.insert(Item { data: 4 }).unwrap();
    assert!(handle_map.is_valid(c));
    assert!(!handle_map.is_valid(a));
    assert_eq!(handle_map.at(c).data, 4);
    assert!(handle_map.insert(Item { data: 5 }).is_none());
    assert!(!handle_map.is_valid(make_handle(7, 0)));
}

#[test]
fn ringbuffer_construction() {
    let rbf: RingBuffer<Task> = RingBuffer::new(10);
    assert_eq!(rbf.capacity(), 10, "RingBuffer was not created with enough capacity");
    assert_eq!(rbf.is_empty(), true, "RingBuffer was not empty at the beginning");
    assert_eq!(rbf.size(), 0, "RingBuffer was not created with a size of 0 although it should be empty");
}

#[test]
fn none_on_read_empty() {
    let mut rbf: RingBuffer<Task> = RingBuffer::new(10);
    assert!(rbf.read().is_none(), "Reading from an empty buffer did not return NONE");
}

#[test]
fn none_on_peek_empty() {
    let rbf: RingBuffer<Task> = RingBuffer::new(10);
    assert!(rbf.peek().is_none(), "Peeking from an empty buffer did not return NONE");
}

#[test]
fn write() {
    let mut rbf: RingBuffer<Task> = RingBuffer::new(10);
    for idx in 0..9 {
        rbf.write(Task { data: idx * 10, id: idx });
    }
    assert_eq!(rbf.size(), 9, "RingBuffer does not contain 10 tasks after wrtie loop");
    for idx in 0..9 {
        let task = rbf.read().unwrap();
        assert_eq!(task.id, idx, "Task id did not match");
    }
    assert!(rbf.is_empty(), "RingBuffer was not empty after reading all values");
}

#[test]
fn peek() {
    let mut rbf: RingBuffer<Task> = RingBuffer::new(5);
    for idx in 0..2 {
        rbf.write(Task { data: idx * 10, id: idx });
    }
    let peek_id_1;
    let peek_id_2;
    {
        let peek_1 = rbf.peek().unwrap();
        peek_id_1 = peek_1.id;
    }
    {
        let peek_2 = rbf.peek().unwrap();
        peek_id_2 = peek_2.id;
    }
    assert_eq!(peek_id_1, peek_id_2, "Peek() did not return the same value twice");
    assert!(!rbf.is_empty(), "Peek() did consume a value");
    assert_eq!(rbf.size(), 2, "Peek() corrupted buffer size");
}

#[test]
fn reset() {
    let mut rbf: RingBuffer<Task> = RingBuffer::new(10);
    for idx in 0..9 {
        rbf.write(Task { data: idx * 10, id: idx });
    }
    assert_eq!(rbf.size(), 9, "RingBuffer does not contain 10 tasks after wrtie loop");
    rbf.reset();
    assert!(rbf.is_empty(), "RingBuffer was not empty after calling reset");
}

#[test]
fn ringbuffer_overwrites_oldest_when_full() {
    let mut rbf: RingBuffer<Task> = RingBuffer::new(3);
    for idx in 0..5 {
        rbf.write_clone(&Task { data: idx, id: idx });
    }
    assert_eq!(rbf.size(), 3);
    assert_eq!(rbf.read().unwrap().id, 2);
    assert_eq!(rbf.read().unwrap().id, 3);
    assert_eq!(rbf.read().unwrap().id, 4);
    assert!(rbf.read().is_none());
}

#[test]
fn create_new_vector_empty() {
    let vec: Vector<Item> = Vector::new();
    assert!(vec.size() == 0, "Vector was initialized with non zero size");
    assert!(vec.capacity() == 0, "Vector was initialized with non zero capacity");
}

#[test]
fn push_data() {
    let mut vec: Vector<Item> = Vector::new();
    vec.push(Item { data: 0xCC });
    vec.push(Item { data: 0xDD });
    assert_eq!(vec.get(0).data, 0xCC);
    assert_eq!(vec.get(1).data, 0xDD);
    assert_eq!(vec.size(), 2);
    assert_eq!(vec.capacity(), 512);
}

#[test]
fn pop_data() {
    let mut vec: Vector<Item> = Vector::new();
    vec.push(Item { data: 0xCC });
    vec.push(Item { data: 0xDD });
    assert_eq!(vec.pop().unwrap().data, 0xDD);
    assert_eq!(vec.pop().unwrap().data, 0xCC);
    assert_eq!(vec.size(), 0);
    assert_eq!(vec.capacity(), 512);
}

#[test]
fn erase_data() {
    let mut vec: Vector<Item> = Vector::new();
    vec.push(Item { data: 0xCC });
    vec.push(Item { data: 0xDD });
    vec.push(Item { data: 0xEE });
    vec.push(Item { data: 0xFF });
    vec.erase(1);
    assert_eq!(vec.size(), 3);
    assert_eq!(vec.capacity(), 512);
    assert_eq!(vec.get(0).data, 0xCC);
    assert_eq!(vec.get(1).data, 0xEE);
    assert_eq!(vec.get(2).data, 0xFF);
}

#[test]
fn erase_data_range() {
    let mut vec: Vector<Item> = Vector::new();
    vec.push(Item { data: 0xCC });
    vec.push(Item { data: 0xDD });
    vec.push(Item { data: 0xEE });
    vec.push(Item { data: 0xFF });
    vec.erase_range(1, 2);
    assert_eq!(vec.size(), 2);
    assert_eq!(vec.capacity(), 512);
    assert_eq!(vec.get(0).data, 0xCC);
    assert_eq!(vec.get(1).data, 0xFF);
}

#[test]
fn reserve() {
    let mut vec: Vector<Item> = Vector::new();
    vec.reserve(600);
    assert_eq!(vec.size(), 0);
    assert_eq!(vec.capacity(), 1024);
}

#[test]
fn resize_default() {
    let mut vec: Vector<Item> = Vector::new();
    vec.resize(4);
    assert_eq!(vec.size(), 4);
    assert_eq!(vec.capacity(), 512);
    assert_eq!(vec.get(0).data, 42);
    assert_eq!(vec.get(1).data, 42);
    assert_eq!(vec.get(2).data, 42);
    assert_eq!(vec.get(3).data, 42);
}

#[test]
fn resize_with_template_and_shrink() {
    let mut vec: Vector<Task> = Vector::new();
    vec.resize_with_template(3, &Task { data: 9, id: 1 });
    assert_eq!(vec.size(), 3);
    assert_eq!(vec.get(2).data, 9);
    vec.resize(1);
    assert_eq!(vec.size(), 1);
    assert!(!vec.empty());
}

#[test]
fn vector_grow_preserves_addresses() {
    let mut vec: Vector<AllocationData> = Vector::new();
    vec.reserve(10_000);
    for _ in 0..10_000 {
        vec.push(AllocationData::default());
    }
    let size = std::mem::size_of::<AllocationData>();
    let slice = vec.as_slice();
    // Element addresses cannot be compared here: these tests may not hold
    // raw pointers. The elements come as one slice spanning all of them.
    assert_eq!(std::mem::size_of_val(slice), 10_000 * size);
    for i in 0..9_999usize {
        assert_eq!(vec.element_address(i + 1), vec.element_address(i) + size);
    }
    let mut v2 = vec;
    v2.set(0, AllocationData { data_block_1: [10; 10], ..AllocationData::default() });
    assert_eq!(v2.get(0).data_block_1[0], 10);
    assert_eq!(v2.get(0).data_block_4[9], 0);
}

#[test]
fn ringbuffer_peek_mut_updates_oldest() {
    let mut rbf: RingBuffer<Task> = RingBuffer::new(4);
    assert!(rbf.peek_mut().is_none());
    rbf.write(Task { data: 1, id: 1 });
    rbf.write(Task { data: 2, id: 2 });
    rbf.peek_mut().unwrap().data = 10;
    assert_eq!(rbf.read().unwrap().data, 10);
    assert_eq!(rbf.read().unwrap().data, 2);
}

#[test]
fn vector_capacity_counts_committed_bytes() {
    let mut vec: Vector<[u8; 3000]> = Vector::new();
    vec.reserve(3);
    assert_eq!(vec.capacity(), 12288 / 3000);
    for _ in 0..9 {
        vec.push([0u8; 3000]);
    }
    assert_eq!(vec.size(), 9);
    assert_eq!(vec.capacity(), (12288 + 24576) / 3000);
    let most = 1073741824 / 3000;
    vec.reserve(most);
    assert!(vec.capacity() >= most);
    assert_eq!(vec.capacity(), most);
}

#[test]
fn vector_small_capacity_grows_by_at_least_eight() {
    let mut vec: Vector<[u8; 2000]> = Vector::new();
    vec.reserve(2);
    assert_eq!(vec.capacity(), 2);
    vec.push([0u8; 2000]);
    vec.push([0u8; 2000]);
    vec.push([0u8; 2000]);
    // Room for eight more elements: 16000 bytes round up to 16384.
    assert_eq!(vec.capacity(), (4096 + 16384) / 2000);
}
