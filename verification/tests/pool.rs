use rustnet::pool::new;

#[test]
fn pool_test() {
    do_test()
}

fn do_test() {
    let mut pool = new::<i32>();
    let i = pool.get();
    pool.put(i);
}

#[test]
fn pool_put_then_get() {
    let mut pool = new::<i32>().with_max_buf_num(2);
    assert_eq!(0, pool.get());
    pool.put(5);
    pool.put(6);
    pool.put(7);
    assert_eq!(6, pool.get());
    assert_eq!(5, pool.get());
    assert_eq!(0, pool.get());
}
