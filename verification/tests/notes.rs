use rcore_kernel::notes::ownership::{new, Student};
use rcore_kernel::notes::self_test::List;
use rcore_kernel::notes::strong_and_weak::LinkedList;
use rcore_kernel::user::task::{SyscallInfo, TaskInfo, TaskStatus, MAX_SYSCALL_NUM};

#[test]
fn pop_of_a_new_list_is_none() {
    let mut list = List::new();
    assert_eq!(list.pop(), None);
}

#[test]
fn stack_pops_in_reverse_order() {
    let mut list = List::new();
    list.push(1);
    list.push(2);
    list.push(3);
    assert_eq!(list.pop(), Some(3));
    list.push(4);
    assert_eq!(list.pop(), Some(4));
    assert_eq!(list.pop(), Some(2));
    assert_eq!(list.pop(), Some(1));
    assert_eq!(list.pop(), None);
}

#[test]
fn second_list_push_leaves_the_list() {
    let list = rcore_kernel::notes::second::List::new();
    let _ = &list;
}

#[test]
fn persistent_list_shares_its_tail() {
    let empty: LinkedList<i32> = LinkedList::new();
    let one = empty.append(1);
    let _two = one.append(2);
    let strs = LinkedList::new().append("foo").append("bar");
    let _ = strs;
}

#[test]
fn student() {
    let s: Student = new();
    assert_eq!((s.id, s.age, s.name.as_str()), (0, 1, "abc"));
}

#[test]
fn vector_copy() {
    assert_eq!(rcore_kernel::notes::test::test(vec![1, 2, 3]), vec![1, 2, 3]);
    assert_eq!(rcore_kernel::notes::test::test(Vec::new()), Vec::<i32>::new());
}

#[test]
fn task_info_starts_empty() {
    let info = TaskInfo::new();
    assert_eq!(info.id, usize::MAX);
    assert_eq!(info.status, TaskStatus::UnInit);
    assert_eq!(info.time, 0);
    assert_eq!(info.call.len(), MAX_SYSCALL_NUM);
    assert!(info.call.iter().all(|c| c.id == usize::MAX && c.times == 0));
    let s = SyscallInfo::new();
    assert_eq!((s.id, s.times), (usize::MAX, 0));
}
