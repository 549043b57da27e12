use toolshed::pool::MemoryPool;

#[test]
fn test_pool_creation() {
    let pool = MemoryPool::new(64, 10);
    assert_eq!(pool.capacity(), 10);
    assert_eq!(pool.blocks_in_use(), 0);
    assert_eq!(pool.available(), 10);
    assert!(pool.is_empty());
    assert!(!pool.is_full());
}

#[test]
fn test_single_allocation() {
    let mut pool = MemoryPool::new(64, 10);

    let block = pool.allocate();
    assert!(block.is_some());
    assert_eq!(pool.blocks_in_use(), 1);
    assert_eq!(pool.available(), 9);
}

#[test]
fn test_multiple_allocations() {
    let mut pool = MemoryPool::new(64, 5);

    let mut blocks = Vec::new();
    for i in 0..5 {
        let block = pool.allocate();
        assert!(block.is_some(), "Allocation {} failed", i);
        blocks.push(block.unwrap());
    }

    assert_eq!(pool.blocks_in_use(), 5);
    assert!(pool.is_full());
    assert_eq!(pool.available(), 0);
}

#[test]
fn test_exhaustion() {
    let mut pool = MemoryPool::new(32, 3);

    // Allocate all blocks
    let _b1 = pool.allocate().unwrap();
    let _b2 = pool.allocate().unwrap();
    let _b3 = pool.allocate().unwrap();

    // Pool should be exhausted
    assert!(pool.is_full());
    let b4 = pool.allocate();
    assert!(b4.is_none(), "Pool should be exhausted");
}

#[test]
fn test_deallocation() {
    let mut pool = MemoryPool::new(64, 5);

    let b1 = pool.allocate().unwrap();
    let b2 = pool.allocate().unwrap();

    assert_eq!(pool.blocks_in_use(), 2);

    pool.deallocate(b1);

    assert_eq!(pool.blocks_in_use(), 1);
    assert_eq!(pool.available(), 4);

    pool.deallocate(b2);

    assert_eq!(pool.blocks_in_use(), 0);
    assert!(pool.is_empty());
}

#[test]
fn test_reallocation_after_deallocation() {
    let mut pool = MemoryPool::new(128, 3);

    // Allocate all blocks
    let b1 = pool.allocate().unwrap();
    let b2 = pool.allocate().unwrap();
    let b3 = pool.allocate().unwrap();

    assert!(pool.is_full());

    // Free one block
    pool.deallocate(b2);

    assert!(!pool.is_full());
    assert_eq!(pool.available(), 1);

    // Should be able to allocate again
    let b4 = pool.allocate();
    assert!(b4.is_some());
    assert!(pool.is_full());

    // Clean up
    pool.deallocate(b1);
    pool.deallocate(b3);
    pool.deallocate(b4.unwrap());
}

#[test]
fn test_write_and_read_data() {
    let mut pool = MemoryPool::new(256, 2);

    let block = pool.allocate().unwrap();

    // Write data to the block
    pool.write(block, 0, &0xDEADBEEFu64.to_ne_bytes());

    // Read it back
    let bytes = pool.read(block, 0, 8);
    let value = u64::from_ne_bytes(bytes.try_into().unwrap());
    assert_eq!(value, 0xDEADBEEF);

    pool.deallocate(block);
}

#[test]
fn test_multiple_blocks_isolation() {
    let mut pool = MemoryPool::new(128, 3);

    let b1 = pool.allocate().unwrap();
    let b2 = pool.allocate().unwrap();
    let b3 = pool.allocate().unwrap();

    // Write different values to each block
    pool.write(b1, 0, &111u32.to_ne_bytes());
    pool.write(b2, 0, &222u32.to_ne_bytes());
    pool.write(b3, 0, &333u32.to_ne_bytes());

    // Verify each block retained its own value
    let read_u32 = |pool: &MemoryPool, b: usize| u32::from_ne_bytes(pool.read(b, 0, 4).try_into().unwrap());
    assert_eq!(read_u32(&pool, b1), 111);
    assert_eq!(read_u32(&pool, b2), 222);
    assert_eq!(read_u32(&pool, b3), 333);

    pool.deallocate(b1);
    pool.deallocate(b2);
    pool.deallocate(b3);
}

#[test]
fn test_allocate_deallocate_cycle() {
    let mut pool = MemoryPool::new(64, 2);

    // Do several allocation/deallocation cycles
    for _ in 0..5 {
        let b = pool.allocate().unwrap();
        assert_eq!(pool.blocks_in_use(), 1);

        pool.deallocate(b);

        assert_eq!(pool.blocks_in_use(), 0);
    }
}

#[test]
fn test_block_size_adjustment() {
    // Block size smaller than usize should be adjusted
    let pool = MemoryPool::new(1, 5);
    assert!(pool.block_size() >= std::mem::size_of::<usize>());
}

#[test]
fn test_large_pool() {
    let mut pool = MemoryPool::new(1024, 1000);

    let mut blocks = Vec::new();
    for _ in 0..500 {
        if let Some(block) = pool.allocate() {
            blocks.push(block);
        }
    }

    assert_eq!(pool.blocks_in_use(), 500);
    assert_eq!(pool.available(), 500);

    // Deallocate all
    for block in blocks {
        pool.deallocate(block);
    }

    assert!(pool.is_empty());
}

#[test]
fn test_struct_storage() {
    #[derive(Debug, PartialEq)]
    struct Point {
        x: f64,
        y: f64,
    }

    let mut pool = MemoryPool::new(std::mem::size_of::<Point>(), 5);

    let block = pool.allocate().unwrap();

    let point = Point { x: 3.14, y: 2.71 };
    pool.write(block, 0, &point.x.to_ne_bytes());
    pool.write(block, 8, &point.y.to_ne_bytes());

    let retrieved = Point {
        x: f64::from_ne_bytes(pool.read(block, 0, 8).try_into().unwrap()),
        y: f64::from_ne_bytes(pool.read(block, 8, 8).try_into().unwrap()),
    };
    assert_eq!(retrieved.x, 3.14);
    assert_eq!(retrieved.y, 2.71);

    pool.deallocate(block);
}

#[test]
fn blocks_are_handed_out_in_order_and_reused_last_in_first_out() {
    let mut pool = MemoryPool::new(16, 4);
    assert_eq!(pool.allocate(), Some(0));
    assert_eq!(pool.allocate(), Some(1));
    assert_eq!(pool.allocate(), Some(2));
    pool.deallocate(1);
    pool.deallocate(0);
    assert_eq!(pool.allocate(), Some(0));
    assert_eq!(pool.allocate(), Some(1));
    assert_eq!(pool.allocate(), Some(3));
    assert_eq!(pool.allocate(), None);
}

#[test]
fn block_size_is_kept_when_large_enough() {
    let pool = MemoryPool::new(100, 3);
    assert_eq!(pool.block_size(), 100);
    let small = MemoryPool::new(3, 3);
    assert_eq!(small.block_size(), std::mem::size_of::<usize>());
}

#[test]
fn write_at_offset_leaves_rest_of_block() {
    let mut pool = MemoryPool::new(8, 2);
    let a = pool.allocate().unwrap();
    let b = pool.allocate().unwrap();
    pool.write(a, 0, &[1, 2, 3, 4, 5, 6, 7, 8]);
    pool.write(b, 0, &[9; 8]);
    pool.write(a, 2, &[0xAA, 0xBB]);
    assert_eq!(pool.read(a, 0, 8), vec![1, 2, 0xAA, 0xBB, 5, 6, 7, 8]);
    assert_eq!(pool.read(b, 0, 8), vec![9; 8]);
}

#[test]
fn fresh_pool_links_each_block_to_the_next() {
    let w = std::mem::size_of::<usize>();
    let pool = MemoryPool::new(16, 3);
    assert_eq!(pool.read(0, 0, w), 1usize.to_le_bytes().to_vec());
    assert_eq!(pool.read(1, 0, w), 2usize.to_le_bytes().to_vec());
    assert_eq!(pool.read(2, 0, w), usize::MAX.to_le_bytes().to_vec());
}

#[test]
fn returned_block_records_the_previous_head() {
    let w = std::mem::size_of::<usize>();
    let mut pool = MemoryPool::new(16, 3);
    let a = pool.allocate().unwrap();
    let b = pool.allocate().unwrap();
    pool.write(a, 0, &[0xEE; 16]);
    pool.deallocate(a);
    // The head was block 2; the rest of the block is untouched.
    assert_eq!(pool.read(a, 0, w), 2usize.to_le_bytes().to_vec());
    assert_eq!(pool.read(a, w, 16 - w), vec![0xEE; 16 - w]);
    pool.deallocate(b);
    assert_eq!(pool.read(b, 0, w), a.to_le_bytes().to_vec());
    assert_eq!(pool.allocate(), Some(b));
    assert_eq!(pool.allocate(), Some(a));
    assert_eq!(pool.allocate(), Some(2));
    assert_eq!(pool.allocate(), None);
}

#[test]
fn full_pool_returned_block_ends_the_list() {
    let w = std::mem::size_of::<usize>();
    let mut pool = MemoryPool::new(8, 2);
    let a = pool.allocate().unwrap();
    let _b = pool.allocate().unwrap();
    pool.deallocate(a);
    assert_eq!(pool.read(a, 0, w), usize::MAX.to_le_bytes().to_vec());
    assert_eq!(pool.allocate(), Some(a));
    assert_eq!(pool.allocate(), None);
}

#[test]
fn in_use_counts_taken_less_returned() {
    let mut pool = MemoryPool::new(16, 3);
    let mut taken = 0;
    let mut held = Vec::new();
    for _ in 0..5 {
        if let Some(b) = pool.allocate() {
            taken += 1;
            held.push(b);
        }
    }
    assert_eq!(taken, 3);
    let returned = 2;
    for b in held.drain(..returned) {
        pool.deallocate(b);
    }
    assert_eq!(pool.blocks_in_use(), taken - returned);
    assert!(pool.blocks_in_use() <= pool.capacity());
}
